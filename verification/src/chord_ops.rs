//! Operations on chord names and fingerings.

use vstd::prelude::*;
use itertools::Itertools;
use crate::text::{
    ascii_lower, ascii_upper, chars_of, is_whitespace, is_whitespace_char, lemma_strip_replace_all,
    lemma_strip_whitespace_add, lemma_strip_whitespace_clean, lemma_strip_whitespace_none, lowercase_all, replace_all, replace_all_chars,
    string_from_chars, strip_whitespace, to_ascii_lowercase, to_ascii_uppercase,
};

verus! {

broadcast use vstd::string::group_string_axioms;

// ---------------------------------------------------------------------------
// Fingerings
// ---------------------------------------------------------------------------

/// A string is fretted when a finger presses it: it is neither muted
/// (`None`) nor played open (`Some(0)`).
pub open spec fn fretted(v: Option<usize>) -> bool {
    v matches Some(n) && n > 0
}

/// Where the run of fretted strings that ends just below index `end` starts.
pub open spec fn fretted_run_start(c: Seq<Option<usize>>, end: int) -> int
    decreases end,
{
    if end <= 0 {
        0
    } else if fretted(c[end - 1]) {
        fretted_run_start(c, end - 1)
    } else {
        end
    }
}

/// How many strings in `lo..hi` are pressed at the first fret.
pub open spec fn count_first_fret(c: Seq<Option<usize>>, lo: int, hi: int) -> nat
    decreases hi - lo,
{
    if lo >= hi {
        0
    } else {
        (if c[lo] == Some(1usize) { 1nat } else { 0nat }) + count_first_fret(c, lo + 1, hi)
    }
}

/// The lowest index in `lo..hi` of a string pressed at the first fret (`hi`
/// when there is none).
pub open spec fn first_first_fret(c: Seq<Option<usize>>, lo: int, hi: int) -> int
    decreases hi - lo,
{
    if lo >= hi {
        hi
    } else if c[lo] == Some(1usize) {
        lo
    } else {
        first_first_fret(c, lo + 1, hi)
    }
}

/// The length of the barre of a fingering whose lowest fingered fret is the
/// first: the barre lies across the run of fretted strings that reaches the
/// last string, from the lowest-index string of that run that is pressed at
/// the first fret up to the last string. It is 0 unless at least two strings
/// of that run are pressed at the first fret.
pub open spec fn barre_length_spec(c: Seq<Option<usize>>) -> int {
    let start = fretted_run_start(c, 6);
    if count_first_fret(c, start, 6) >= 2 {
        6 - first_first_fret(c, start, 6)
    } else {
        0
    }
}

proof fn lemma_run_start_through_fretted(c: Seq<Option<usize>>, lo: int, end: int)
    requires
        0 <= lo <= end,
        forall|j: int| lo <= j < end ==> fretted(#[trigger] c[j]),
    ensures
        fretted_run_start(c, end) == fretted_run_start(c, lo),
    decreases end - lo,
{
    if end > lo {
        lemma_run_start_through_fretted(c, lo, end - 1);
    }
}

proof fn lemma_run_start_range(c: Seq<Option<usize>>, end: int)
    requires
        0 <= end,
    ensures
        0 <= fretted_run_start(c, end) <= end,
    decreases end,
{
    if end > 0 {
        lemma_run_start_range(c, end - 1);
    }
}

proof fn lemma_count_first_fret_bound(c: Seq<Option<usize>>, lo: int, hi: int)
    requires
        0 <= lo,
    ensures
        count_first_fret(c, lo, hi) <= count_first_fret(c, 0, hi),
    decreases lo,
{
    if lo > 0 && lo <= hi {
        lemma_count_first_fret_bound(c, lo - 1, hi);
    }
}

/// The run found by `fretted_run_start` is fretted throughout and cannot be
/// extended downwards.
proof fn lemma_run_start_facts(c: Seq<Option<usize>>, end: int)
    requires
        0 <= end,
    ensures
        0 <= fretted_run_start(c, end) <= end,
        forall|k: int| fretted_run_start(c, end) <= k < end ==> fretted(#[trigger] c[k]),
        fretted_run_start(c, end) > 0 ==> !fretted(c[fretted_run_start(c, end) - 1]),
    decreases end,
{
    if end > 0 {
        lemma_run_start_facts(c, end - 1);
    }
}

/// `first_first_fret` finds the lowest string pressed at the first fret,
/// and no count is lost by starting from it.
proof fn lemma_first_first_fret_facts(c: Seq<Option<usize>>, lo: int, hi: int)
    requires
        lo <= hi,
    ensures
        lo <= first_first_fret(c, lo, hi) <= hi,
        first_first_fret(c, lo, hi) < hi ==> c[first_first_fret(c, lo, hi)] == Some(1usize),
        forall|k: int| lo <= k < first_first_fret(c, lo, hi) ==> #[trigger] c[k] != Some(1usize),
        count_first_fret(c, lo, hi) == count_first_fret(c, first_first_fret(c, lo, hi), hi),
    decreases hi - lo,
{
    if lo < hi {
        lemma_first_first_fret_facts(c, lo + 1, hi);
    }
}

/// Two strings of `lo..hi` pressed at the first fret make a count of two.
proof fn lemma_count_two(c: Seq<Option<usize>>, lo: int, hi: int, i: int, k: int)
    requires
        lo <= i < k < hi,
        c[i] == Some(1usize),
        c[k] == Some(1usize),
    ensures
        count_first_fret(c, lo, hi) >= 2,
    decreases hi - lo,
{
    if lo < i {
        lemma_count_two(c, lo + 1, hi, i, k);
    } else {
        lemma_count_one(c, lo + 1, hi, k);
    }
}

proof fn lemma_count_one(c: Seq<Option<usize>>, lo: int, hi: int, k: int)
    requires
        lo <= k < hi,
        c[k] == Some(1usize),
    ensures
        count_first_fret(c, lo, hi) >= 1,
    decreases hi - lo,
{
    if lo < k {
        lemma_count_one(c, lo + 1, hi, k);
    }
}

/// The shape of the barre. A barre of length `r` lies across the last `r`
/// strings: the first of them is pressed at the first fret, all of them are
/// fretted, another of them is pressed at the first fret too, and no string
/// below it that is joined to it by fretted strings is pressed at the first
/// fret. There is no barre exactly when no two strings pressed at the first
/// fret are joined to the last string by fretted strings.
pub proof fn lemma_barre_shape(c: Seq<Option<usize>>)
    requires
        c.len() == 6,
    ensures
        ({
            let r = barre_length_spec(c);
            &&& r == 0 || 2 <= r <= 6
            &&& r > 0 ==> c[6 - r] == Some(1usize)
            &&& r > 0 ==> forall|k: int| 6 - r <= k < 6 ==> fretted(#[trigger] c[k])
            &&& r > 0 ==> exists|k: int| 6 - r < k < 6 && #[trigger] c[k] == Some(1usize)
            &&& r > 0 ==> forall|j: int|
                0 <= j < 6 - r && #[trigger] c[j] == Some(1usize) ==> exists|m: int|
                    j <= m < 6 - r && !fretted(#[trigger] c[m])
            &&& r == 0 ==> forall|i: int, k: int|
                0 <= i < k < 6 && #[trigger] c[i] == Some(1usize) && #[trigger] c[k] == Some(
                    1usize,
                ) ==> exists|m: int| i <= m < 6 && !fretted(#[trigger] c[m])
        }),
{
    let start = fretted_run_start(c, 6);
    lemma_run_start_facts(c, 6);
    lemma_first_first_fret_facts(c, start, 6);
    let f = first_first_fret(c, start, 6);
    let r = barre_length_spec(c);
    if count_first_fret(c, start, 6) >= 2 {
        assert(f < 6);
        assert(r == 6 - f);
        lemma_first_first_fret_facts(c, f + 1, 6);
        let g = first_first_fret(c, f + 1, 6);
        assert(count_first_fret(c, f, 6) == 1 + count_first_fret(c, f + 1, 6));
        assert(g < 6);
        assert(c[g] == Some(1usize));
        assert forall|j: int| 0 <= j < 6 - r && #[trigger] c[j] == Some(1usize) implies exists|m: int|
            j <= m < 6 - r && !fretted(#[trigger] c[m]) by {
            assert(j < start);
            assert(!fretted(c[start - 1]));
        }
        if f == 5 {
            assert(false);
        }
    } else {
        assert(r == 0);
        assert forall|i: int, k: int|
            0 <= i < k < 6 && #[trigger] c[i] == Some(1usize) && #[trigger] c[k] == Some(1usize)
            implies exists|m: int| i <= m < 6 && !fretted(#[trigger] c[m]) by {
            if i >= start {
                lemma_count_two(c, start, 6, i, k);
            } else {
                assert(!fretted(c[start - 1]));
            }
        }
    }
}

fn is_fretted(v: Option<usize>) -> (r: bool)
    ensures
        r == fretted(v),
{
    match v {
        Some(n) => n > 0,
        None => false,
    }
}

fn is_first_fret(v: Option<usize>) -> (r: bool)
    ensures
        r == (v == Some(1usize)),
{
    match v {
        Some(n) => n == 1,
        None => false,
    }
}

/// Length of the barre of a fingering adjusted so that its lowest fingered
/// fret is the first (0 when there is no barre); see `barre_length_spec`.
pub fn find_barre_length(chord: [Option<usize>; 6]) -> (r: usize)
    ensures
        r == barre_length_spec(chord@),
{
    let ghost c = chord@;
    let mut ones: usize = 0;
    let mut i: usize = 6;
    while i > 0
        invariant
            i <= 6,
            c == chord@,
            ones == count_first_fret(c, i as int, 6),
            ones <= 6 - i,
        decreases i,
    {
        i = i - 1;
        if is_first_fret(chord[i]) {
            ones = ones + 1;
        }
    }
    if ones < 2 {
        proof {
            lemma_run_start_range(c, 6);
            lemma_count_first_fret_bound(c, fretted_run_start(c, 6), 6);
        }
        return 0;
    }
    let mut barre_length: usize = 0;
    let mut note_count: usize = 0;
    let mut num: usize = 0;
    while num < 6
        invariant_except_break
            num < 6 ==> (num > 0 ==> fretted(c[5 - num])),
            forall|j: int| 6 - num <= j < 6 ==> fretted(#[trigger] c[j]),
            fretted_run_start(c, 6) == fretted_run_start(c, 6 - num),
            note_count <= num,
            note_count == count_first_fret(c, 6 - num, 6),
            barre_length == (if note_count > 0 {
                6 - first_first_fret(c, 6 - num, 6)
            } else {
                0
            }),
        invariant
            c == chord@,
            num <= 6,
            note_count <= num + 1,
        ensures
            note_count == count_first_fret(c, fretted_run_start(c, 6), 6),
            barre_length == (if note_count > 0 {
                6 - first_first_fret(c, fretted_run_start(c, 6), 6)
            } else {
                0
            }),
        decreases 6 - num,
    {
        let idx = 5 - num;
        let val = chord[idx];
        if is_first_fret(val) {
            barre_length = num + 1;
            note_count = note_count + 1;
        }
        let next_open_or_muted = num < 5 && !is_fretted(chord[idx - 1]);
        if next_open_or_muted || !is_fretted(val) {
            proof {
                if !fretted(val) {
                    assert(num == 0);
                    assert(fretted_run_start(c, 6) == 6);
                } else {
                    lemma_run_start_through_fretted(c, idx as int, 6);
                    assert(fretted_run_start(c, idx as int) == idx);
                }
            }
            break;
        }
        num = num + 1;
        proof {
            lemma_run_start_through_fretted(c, 6 - num, 6);
        }
    }
    if note_count > 1 {
        barre_length
    } else {
        0
    }
}

/// Fingerings that are always shown from the first fret, even though none of
/// their strings is pressed at it (A, A5, A7, Aadd9, Asus4, Bm7, Cmaj7, D,
/// D5, D6, Dmaj7, Dsus4, Em, Em6, Em7, Esus2, Esus4, G, G alternative, G6).
pub open spec fn special_case_chords() -> Seq<Seq<Option<usize>>> {
    seq![
        seq![None, Some(0), Some(2), Some(2), Some(2), Some(0)],
        seq![None, Some(0), Some(2), Some(2), None, Some(0)],
        seq![None, Some(0), Some(2), Some(0), Some(2), Some(0)],
        seq![None, Some(0), Some(2), Some(4), Some(2), Some(0)],
        seq![None, Some(0), Some(2), Some(2), Some(3), Some(0)],
        seq![None, Some(2), Some(0), Some(2), Some(0), Some(2)],
        seq![None, Some(3), Some(2), Some(0), Some(0), Some(0)],
        seq![None, None, Some(0), Some(2), Some(3), Some(2)],
        seq![None, None, Some(0), Some(2), Some(3), None],
        seq![None, None, Some(0), Some(2), Some(0), Some(2)],
        seq![None, None, Some(0), Some(2), Some(2), Some(2)],
        seq![None, None, Some(0), Some(2), Some(3), Some(3)],
        seq![Some(0), Some(2), Some(2), Some(0), Some(0), Some(0)],
        seq![Some(0), Some(2), Some(2), Some(0), Some(2), Some(0)],
        seq![Some(0), Some(2), Some(0), Some(0), Some(0), Some(0)],
        seq![Some(0), Some(2), Some(2), None, Some(0), Some(2)],
        seq![Some(0), Some(2), Some(2), Some(2), Some(0), Some(0)],
        seq![Some(3), Some(2), Some(0), Some(0), Some(0), Some(3)],
        seq![Some(3), Some(2), Some(0), Some(0), Some(3), Some(3)],
        seq![Some(3), Some(2), Some(0), Some(0), Some(0), Some(0)],
    ]
}

/// `m` is the lowest fret at which some string of `c` is pressed.
pub open spec fn is_lowest_fret(c: Seq<Option<usize>>, m: usize) -> bool {
    &&& m > 0
    &&& exists|i: int| 0 <= i < c.len() && c[i] == Some(m)
    &&& forall|i: int| 0 <= i < c.len() && #[trigger] fretted(c[i]) ==> m <= c[i]->0
}

/// The neck position a fingering is shown from: the first fret for the
/// special-case fingerings, else the lowest pressed fret taken modulo 256
/// (a `u8`), and `None` when no string is pressed.
pub open spec fn lowest_fingered_fret_spec(c: Seq<Option<usize>>) -> Option<u8> {
    if special_case_chords().contains(c) {
        Some(1u8)
    } else if exists|i: int| 0 <= i < c.len() && #[trigger] fretted(c[i]) {
        Some(((choose|m: usize| is_lowest_fret(c, m)) % 256) as u8)
    } else {
        None
    }
}

/// The open fingerings of A, A5, A7, Aadd9, Asus4, Bm7, Cmaj7, D, D5, D6,
/// Dmaj7, Dsus4, Em, Em6, Em7, Esus2, Esus4, G (two ways) and G6 are shown
/// from the first fret, though their lowest pressed fret is higher.
pub proof fn lemma_open_chords_from_first_fret()
    ensures
        lowest_fingered_fret_spec(seq![None, Some(0usize), Some(2usize), Some(2usize), Some(2usize), Some(0usize)]) == Some(1u8),  // A
        lowest_fingered_fret_spec(seq![None, Some(0usize), Some(2usize), Some(2usize), None, Some(0usize)]) == Some(1u8),  // A5
        lowest_fingered_fret_spec(seq![None, Some(0usize), Some(2usize), Some(0usize), Some(2usize), Some(0usize)]) == Some(1u8),  // A7
        lowest_fingered_fret_spec(seq![None, Some(0usize), Some(2usize), Some(4usize), Some(2usize), Some(0usize)]) == Some(1u8),  // Aadd9
        lowest_fingered_fret_spec(seq![None, Some(0usize), Some(2usize), Some(2usize), Some(3usize), Some(0usize)]) == Some(1u8),  // Asus4
        lowest_fingered_fret_spec(seq![None, Some(2usize), Some(0usize), Some(2usize), Some(0usize), Some(2usize)]) == Some(1u8),  // Bm7
        lowest_fingered_fret_spec(seq![None, Some(3usize), Some(2usize), Some(0usize), Some(0usize), Some(0usize)]) == Some(1u8),  // Cmaj7
        lowest_fingered_fret_spec(seq![None, None, Some(0usize), Some(2usize), Some(3usize), Some(2usize)]) == Some(1u8),  // D
        lowest_fingered_fret_spec(seq![None, None, Some(0usize), Some(2usize), Some(3usize), None]) == Some(1u8),  // D5
        lowest_fingered_fret_spec(seq![None, None, Some(0usize), Some(2usize), Some(0usize), Some(2usize)]) == Some(1u8),  // D6
        lowest_fingered_fret_spec(seq![None, None, Some(0usize), Some(2usize), Some(2usize), Some(2usize)]) == Some(1u8),  // Dmaj7
        lowest_fingered_fret_spec(seq![None, None, Some(0usize), Some(2usize), Some(3usize), Some(3usize)]) == Some(1u8),  // Dsus4
        lowest_fingered_fret_spec(seq![Some(0usize), Some(2usize), Some(2usize), Some(0usize), Some(0usize), Some(0usize)]) == Some(1u8),  // Em
        lowest_fingered_fret_spec(seq![Some(0usize), Some(2usize), Some(2usize), Some(0usize), Some(2usize), Some(0usize)]) == Some(1u8),  // Em6
        lowest_fingered_fret_spec(seq![Some(0usize), Some(2usize), Some(0usize), Some(0usize), Some(0usize), Some(0usize)]) == Some(1u8),  // Em7
        lowest_fingered_fret_spec(seq![Some(0usize), Some(2usize), Some(2usize), None, Some(0usize), Some(2usize)]) == Some(1u8),  // Esus2
        lowest_fingered_fret_spec(seq![Some(0usize), Some(2usize), Some(2usize), Some(2usize), Some(0usize), Some(0usize)]) == Some(1u8),  // Esus4
        lowest_fingered_fret_spec(seq![Some(3usize), Some(2usize), Some(0usize), Some(0usize), Some(0usize), Some(3usize)]) == Some(1u8),  // G
        lowest_fingered_fret_spec(seq![Some(3usize), Some(2usize), Some(0usize), Some(0usize), Some(3usize), Some(3usize)]) == Some(1u8),  // G alternative
        lowest_fingered_fret_spec(seq![Some(3usize), Some(2usize), Some(0usize), Some(0usize), Some(0usize), Some(0usize)]) == Some(1u8),  // G6
{
    let specials = special_case_chords();
    assert(specials[0] == seq![None, Some(0usize), Some(2usize), Some(2usize), Some(2usize), Some(0usize)]);
    assert(specials[1] == seq![None, Some(0usize), Some(2usize), Some(2usize), None, Some(0usize)]);
    assert(specials[2] == seq![None, Some(0usize), Some(2usize), Some(0usize), Some(2usize), Some(0usize)]);
    assert(specials[3] == seq![None, Some(0usize), Some(2usize), Some(4usize), Some(2usize), Some(0usize)]);
    assert(specials[4] == seq![None, Some(0usize), Some(2usize), Some(2usize), Some(3usize), Some(0usize)]);
    assert(specials[5] == seq![None, Some(2usize), Some(0usize), Some(2usize), Some(0usize), Some(2usize)]);
    assert(specials[6] == seq![None, Some(3usize), Some(2usize), Some(0usize), Some(0usize), Some(0usize)]);
    assert(specials[7] == seq![None, None, Some(0usize), Some(2usize), Some(3usize), Some(2usize)]);
    assert(specials[8] == seq![None, None, Some(0usize), Some(2usize), Some(3usize), None]);
    assert(specials[9] == seq![None, None, Some(0usize), Some(2usize), Some(0usize), Some(2usize)]);
    assert(specials[10] == seq![None, None, Some(0usize), Some(2usize), Some(2usize), Some(2usize)]);
    assert(specials[11] == seq![None, None, Some(0usize), Some(2usize), Some(3usize), Some(3usize)]);
    assert(specials[12] == seq![Some(0usize), Some(2usize), Some(2usize), Some(0usize), Some(0usize), Some(0usize)]);
    assert(specials[13] == seq![Some(0usize), Some(2usize), Some(2usize), Some(0usize), Some(2usize), Some(0usize)]);
    assert(specials[14] == seq![Some(0usize), Some(2usize), Some(0usize), Some(0usize), Some(0usize), Some(0usize)]);
    assert(specials[15] == seq![Some(0usize), Some(2usize), Some(2usize), None, Some(0usize), Some(2usize)]);
    assert(specials[16] == seq![Some(0usize), Some(2usize), Some(2usize), Some(2usize), Some(0usize), Some(0usize)]);
    assert(specials[17] == seq![Some(3usize), Some(2usize), Some(0usize), Some(0usize), Some(0usize), Some(3usize)]);
    assert(specials[18] == seq![Some(3usize), Some(2usize), Some(0usize), Some(0usize), Some(3usize), Some(3usize)]);
    assert(specials[19] == seq![Some(3usize), Some(2usize), Some(0usize), Some(0usize), Some(0usize), Some(0usize)]);
}

fn same_fingering(a: &[Option<usize>; 6], b: &[Option<usize>; 6]) -> (r: bool)
    ensures
        r == (a@ == b@),
{
    let mut i: usize = 0;
    while i < 6
        invariant
            i <= 6,
            forall|j: int| 0 <= j < i ==> a@[j] == b@[j],
        decreases 6 - i,
    {
        let same = match (a[i], b[i]) {
            (Some(x), Some(y)) => x == y,
            (None, None) => true,
            _ => false,
        };
        if !same {
            return false;
        }
        i = i + 1;
    }
    assert(a@ =~= b@);
    true
}

fn is_special_case_chord(chord: &[Option<usize>; 6]) -> (r: bool)
    ensures
        r == special_case_chords().contains(chord@),
{
    let table: [[Option<usize>; 6]; 20] = [
        [None, Some(0), Some(2), Some(2), Some(2), Some(0)],
        [None, Some(0), Some(2), Some(2), None, Some(0)],
        [None, Some(0), Some(2), Some(0), Some(2), Some(0)],
        [None, Some(0), Some(2), Some(4), Some(2), Some(0)],
        [None, Some(0), Some(2), Some(2), Some(3), Some(0)],
        [None, Some(2), Some(0), Some(2), Some(0), Some(2)],
        [None, Some(3), Some(2), Some(0), Some(0), Some(0)],
        [None, None, Some(0), Some(2), Some(3), Some(2)],
        [None, None, Some(0), Some(2), Some(3), None],
        [None, None, Some(0), Some(2), Some(0), Some(2)],
        [None, None, Some(0), Some(2), Some(2), Some(2)],
        [None, None, Some(0), Some(2), Some(3), Some(3)],
        [Some(0), Some(2), Some(2), Some(0), Some(0), Some(0)],
        [Some(0), Some(2), Some(2), Some(0), Some(2), Some(0)],
        [Some(0), Some(2), Some(0), Some(0), Some(0), Some(0)],
        [Some(0), Some(2), Some(2), None, Some(0), Some(2)],
        [Some(0), Some(2), Some(2), Some(2), Some(0), Some(0)],
        [Some(3), Some(2), Some(0), Some(0), Some(0), Some(3)],
        [Some(3), Some(2), Some(0), Some(0), Some(3), Some(3)],
        [Some(3), Some(2), Some(0), Some(0), Some(0), Some(0)],
    ];
    let ghost specials = special_case_chords();
    assert forall|k: int| 0 <= k < 20 implies #[trigger] table@[k]@ == specials[k] by {
        assert(table@[k]@ =~= specials[k]);
    }
    let mut k: usize = 0;
    while k < 20
        invariant
            k <= 20,
            specials == special_case_chords(),
            specials.len() == 20,
            forall|j: int| 0 <= j < 20 ==> #[trigger] table@[j]@ == specials[j],
            forall|j: int| 0 <= j < k ==> specials[j] != chord@,
        decreases 20 - k,
    {
        if same_fingering(&table[k], chord) {
            assert(specials[k as int] == chord@);
            return true;
        }
        k = k + 1;
    }
    false
}

/// The neck position from which a fingering is shown: 1 for the
/// special-case fingerings, else the lowest pressed fret (as a `u8`, so
/// modulo 256), or `None` when no string is pressed.
pub fn lowest_fingered_fret(chord: [Option<usize>; 6]) -> (r: Option<u8>)
    ensures
        r == lowest_fingered_fret_spec(chord@),
{
    if is_special_case_chord(&chord) {
        return Some(1);
    }
    let ghost c = chord@;
    let mut lowest: Option<usize> = None;
    let mut i: usize = 0;
    while i < 6
        invariant
            i <= 6,
            c == chord@,
            match lowest {
                None => forall|j: int| 0 <= j < i ==> !fretted(#[trigger] c[j]),
                Some(m) => m > 0 && (exists|j: int| 0 <= j < i && c[j] == Some(m)) && (forall|j: int|
                    0 <= j < i && #[trigger] fretted(c[j]) ==> m <= c[j]->0),
            },
        decreases 6 - i,
    {
        if let Some(v) = chord[i] {
            if v > 0 {
                match lowest {
                    Some(m) => {
                        if v < m {
                            lowest = Some(v);
                        }
                    },
                    None => {
                        lowest = Some(v);
                    },
                }
            }
        }
        i = i + 1;
    }
    match lowest {
        Some(m) => {
            proof {
                let j = choose|j: int| 0 <= j < 6 && c[j] == Some(m);
                assert(fretted(c[j]));
                assert(is_lowest_fret(c, m));
                let m2 = choose|m2: usize| is_lowest_fret(c, m2);
                assert(is_lowest_fret(c, m2));
                let j2 = choose|j2: int| 0 <= j2 < 6 && c[j2] == Some(m2);
                assert(fretted(c[j2]));
                assert(m2 == m);
            }
            Some((m % 256) as u8)
        },
        None => None,
    }
}

/// The fret that a fingering's fret is drawn at once the diagram is shifted
/// to neck position `barre`: open and muted strings stay as they are, and a
/// fretted string moves down by `barre - 1` frets (by none at position 0).
pub open spec fn adjusted_fret(v: Option<usize>, barre: u8) -> Option<usize> {
    match v {
        Some(n) => Some(
            if n == 0 {
                0usize
            } else {
                (n - (if barre == 0 { 0 } else { barre - 1 })) as usize
            },
        ),
        None => None,
    }
}

/// The fingering as drawn from neck position `barre` (see `adjusted_fret`).
pub fn adjust_chord(chord: [Option<usize>; 6], barre: u8) -> (r: [Option<usize>; 6])
    requires
        forall|i: int|
            0 <= i < 6 ==> (#[trigger] chord@[i] matches Some(n) ==> n == 0 || n >= (if barre == 0 {
                0
            } else {
                barre - 1
            })),
    ensures
        forall|i: int| 0 <= i < 6 ==> #[trigger] r@[i] == adjusted_fret(chord@[i], barre),
{
    let shift: usize = if barre == 0 {
        0
    } else {
        (barre - 1) as usize
    };
    let mut out = chord;
    let mut i: usize = 0;
    while i < 6
        invariant
            i <= 6,
            shift == (if barre == 0 { 0 } else { barre - 1 }),
            forall|j: int|
                0 <= j < 6 ==> (#[trigger] chord@[j] matches Some(n) ==> n == 0 || n >= shift),
            forall|j: int| 0 <= j < i ==> #[trigger] out@[j] == adjusted_fret(chord@[j], barre),
        decreases 6 - i,
    {
        let adjusted = match chord[i] {
            Some(n) => Some(
                if n == 0 {
                    0
                } else {
                    n - shift
                },
            ),
            None => None,
        };
        out[i] = adjusted;
        i = i + 1;
    }
    out
}

// ---------------------------------------------------------------------------
// Chord names
// ---------------------------------------------------------------------------

/// Letters (and degree digits) after which `#` is written as a sharp sign.
pub open spec fn sharp_follows(p: char) -> bool {
    p == 'a' || p == 'c' || p == 'd' || p == 'f' || p == 'g' || p == 'j' || p == 'm' || p == '2'
        || p == '4' || p == '7'
}

/// Letters (and degree digits) after which `b` is written as a flat sign.
pub open spec fn flat_follows(p: char) -> bool {
    p == 'a' || p == 'b' || p == 'd' || p == 'e' || p == 'g' || p == 'j' || p == 'm' || p == '2'
        || p == '4' || p == '7'
}

/// How the character `c` is displayed when it follows `prev` in a
/// lower-cased chord name: accidentals become `♯`/`♭`, and the first letter
/// and the letter after a `/` are capitalised.
pub open spec fn styled_char(prev: char, c: char) -> char {
    if c == '#' && sharp_follows(prev) {
        '♯'
    } else if c == 'b' && flat_follows(prev) {
        '♭'
    } else if prev == ' ' || prev == '/' {
        ascii_upper(c)
    } else {
        c
    }
}

/// Every character of `s` styled according to the character before it; the
/// first one is styled as if a space came before it.
pub open spec fn style_chars(s: Seq<char>) -> Seq<char> {
    Seq::new(s.len(), |i: int| styled_char(if i == 0 { ' ' } else { s[i - 1] }, s[i]))
}

/// A space inserted before every `dim`, `aug` and `maj`, in that order.
pub open spec fn space_qualities(s: Seq<char>) -> Seq<char> {
    replace_all(
        replace_all(replace_all(s, "dim"@, " dim"@), "aug"@, " aug"@),
        "maj"@,
        " maj"@,
    )
}

/// The display form of a chord name: whitespace removed, lower-cased,
/// styled, and with a space before each chord quality.
pub open spec fn prettify_spec(s: Seq<char>) -> Seq<char> {
    space_qualities(style_chars(lowercase_all(strip_whitespace(s))))
}

/// `♯` and `♭` written as `#` and `b`.
pub open spec fn plain_accidental(c: char) -> char {
    if c == '♯' {
        '#'
    } else if c == '♭' {
        'b'
    } else {
        c
    }
}

/// The storage form of one character of a chord name.
pub open spec fn serialized_char(c: char) -> char {
    ascii_lower(plain_accidental(c))
}

/// The storage form of a chord name: whitespace removed, accidentals
/// written `#`/`b`, ASCII letters in lower case.
pub open spec fn serialize_spec(s: Seq<char>) -> Seq<char> {
    strip_whitespace(s).map_values(|c: char| serialized_char(c))
}

/// `itertools::Itertools::tuple_windows` with pairs: every two neighbouring
/// characters of `chars`, in order (none when there are fewer than two).
#[verifier::external_body]
fn adjacent_pairs(chars: &Vec<char>) -> (r: Vec<(char, char)>)
    ensures
        r@.len() == if chars@.len() == 0 { 0 } else { chars@.len() - 1 },
        forall|i: int| 0 <= i < r@.len() ==> #[trigger] r@[i] == (chars@[i], chars@[i + 1]),
{
    chars.iter().copied().tuple_windows::<(char, char)>().collect()
}

fn is_sharp_follower(p: char) -> (r: bool)
    ensures
        r == sharp_follows(p),
{
    p == 'a' || p == 'c' || p == 'd' || p == 'f' || p == 'g' || p == 'j' || p == 'm' || p == '2'
        || p == '4' || p == '7'
}

fn is_flat_follower(p: char) -> (r: bool)
    ensures
        r == flat_follows(p),
{
    p == 'a' || p == 'b' || p == 'd' || p == 'e' || p == 'g' || p == 'j' || p == 'm' || p == '2'
        || p == '4' || p == '7'
}

fn style_char(prev: char, c: char) -> (r: char)
    ensures
        r == styled_char(prev, c),
{
    if c == '#' && is_sharp_follower(prev) {
        '♯'
    } else if c == 'b' && is_flat_follower(prev) {
        '♭'
    } else if prev == ' ' || prev == '/' {
        to_ascii_uppercase(c)
    } else {
        c
    }
}

/// The non-whitespace characters of `input`, lower-cased.
fn normalized_chars(input: &str) -> (r: Vec<char>)
    ensures
        r@ == lowercase_all(strip_whitespace(input@)),
{
    let chars = chars_of(input);
    let mut out: Vec<char> = Vec::new();
    let mut i: usize = 0;
    while i < chars.len()
        invariant
            i <= chars@.len(),
            out@ == lowercase_all(strip_whitespace(chars@.take(i as int))),
        decreases chars.len() - i,
    {
        let c = chars[i];
        assert(chars@.take(i + 1).drop_last() =~= chars@.take(i as int));
        if !is_whitespace(c) {
            out.push(to_ascii_lowercase(c));
        }
        i = i + 1;
        assert(out@ =~= lowercase_all(strip_whitespace(chars@.take(i as int))));
    }
    assert(chars@.take(i as int) =~= input@);
    out
}

/// A chord name as it is displayed: whitespace removed, letters lower-cased,
/// `#` and `b` after a note written `♯` and `♭`, the root and the bass note
/// capitalised, and a space before `dim`, `aug` and `maj`.
pub fn prettify_chord_name(input: &str) -> (r: String)
    ensures
        r@ == prettify_spec(input@),
{
    let letters = normalized_chars(input);
    let mut padded: Vec<char> = Vec::new();
    padded.push(' ');
    let mut i: usize = 0;
    while i < letters.len()
        invariant
            i <= letters@.len(),
            padded@ == seq![' '] + letters@.take(i as int),
        decreases letters.len() - i,
    {
        padded.push(letters[i]);
        i = i + 1;
        assert(padded@ =~= seq![' '] + letters@.take(i as int));
    }
    assert(letters@.take(i as int) =~= letters@);
    let pairs = adjacent_pairs(&padded);
    let mut styled: Vec<char> = Vec::new();
    let mut k: usize = 0;
    while k < pairs.len()
        invariant
            pairs@.len() == letters@.len(),
            padded@ == seq![' '] + letters@,
            forall|j: int| 0 <= j < pairs@.len() ==> #[trigger] pairs@[j] == (padded@[j], padded@[j + 1]),
            k <= pairs@.len(),
            styled@ == style_chars(letters@).take(k as int),
        decreases pairs.len() - k,
    {
        let (p, c) = pairs[k];
        assert(pairs@[k as int] == (padded@[k as int], padded@[k + 1]));
        styled.push(style_char(p, c));
        k = k + 1;
        assert(styled@ =~= style_chars(letters@).take(k as int));
    }
    assert(style_chars(letters@).take(k as int) =~= style_chars(letters@));
    proof {
        reveal_strlit("dim");
        reveal_strlit("aug");
        reveal_strlit("maj");
    }
    let spaced = replace_all_chars(&styled, "dim", " dim");
    let spaced = replace_all_chars(&spaced, "aug", " aug");
    let spaced = replace_all_chars(&spaced, "maj", " maj");
    string_from_chars(&spaced)
}

/// A chord name as it is stored and compared: whitespace removed, `♯` and `♭`
/// written `#` and `b`, and ASCII letters in lower case.
pub fn serialize_chord_name(input: &str) -> (r: String)
    ensures
        r@ == serialize_spec(input@),
{
    let chars = chars_of(input);
    let mut out: Vec<char> = Vec::new();
    let mut i: usize = 0;
    while i < chars.len()
        invariant
            i <= chars@.len(),
            out@ == serialize_spec(chars@.take(i as int)),
        decreases chars.len() - i,
    {
        let c = chars[i];
        assert(chars@.take(i + 1).drop_last() =~= chars@.take(i as int));
        if !is_whitespace(c) {
            let plain = if c == '♯' {
                '#'
            } else if c == '♭' {
                'b'
            } else {
                c
            };
            out.push(to_ascii_lowercase(plain));
        }
        i = i + 1;
        assert(out@ =~= serialize_spec(chars@.take(i as int)));
    }
    assert(chars@.take(i as int) =~= input@);
    string_from_chars(&out)
}

/// The three quality words never contain whitespace, and the texts that
/// replace them differ from them only by a leading space.
proof fn lemma_quality_spacing()
    ensures
        strip_whitespace(" dim"@) == strip_whitespace("dim"@),
        strip_whitespace(" aug"@) == strip_whitespace("aug"@),
        strip_whitespace(" maj"@) == strip_whitespace("maj"@),
{
    reveal_strlit("dim");
    reveal_strlit(" dim");
    reveal_strlit("aug");
    reveal_strlit(" aug");
    reveal_strlit("maj");
    reveal_strlit(" maj");
    assert(" dim"@ =~= seq![' '] + "dim"@);
    assert(" aug"@ =~= seq![' '] + "aug"@);
    assert(" maj"@ =~= seq![' '] + "maj"@);
    assert(strip_whitespace(seq![' ']) =~= Seq::<char>::empty()) by {
        assert(seq![' '].drop_last() =~= Seq::<char>::empty());
        assert(seq![' '].last() == ' ');
        assert(strip_whitespace(Seq::<char>::empty()) == Seq::<char>::empty());
    }
    lemma_strip_whitespace_add(seq![' '], "dim"@);
    lemma_strip_whitespace_add(seq![' '], "aug"@);
    lemma_strip_whitespace_add(seq![' '], "maj"@);
    assert(Seq::<char>::empty() + strip_whitespace("dim"@) =~= strip_whitespace("dim"@));
    assert(Seq::<char>::empty() + strip_whitespace("aug"@) =~= strip_whitespace("aug"@));
    assert(Seq::<char>::empty() + strip_whitespace("maj"@) =~= strip_whitespace("maj"@));
}

/// Spacing out the qualities only inserts whitespace.
proof fn lemma_strip_space_qualities(s: Seq<char>)
    ensures
        strip_whitespace(space_qualities(s)) == strip_whitespace(s),
{
    lemma_quality_spacing();
    let a = replace_all(s, "dim"@, " dim"@);
    let b = replace_all(a, "aug"@, " aug"@);
    lemma_strip_replace_all(s, "dim"@, " dim"@);
    lemma_strip_replace_all(a, "aug"@, " aug"@);
    lemma_strip_replace_all(b, "maj"@, " maj"@);
}

/// The styled letters of a name hold no whitespace and are recovered, with
/// their neighbours, from their lower-case forms.
proof fn lemma_styled_letters(s: Seq<char>)
    ensures
        strip_whitespace(style_chars(lowercase_all(strip_whitespace(s)))) == style_chars(
            lowercase_all(strip_whitespace(s)),
        ),
{
    let n = lowercase_all(strip_whitespace(s));
    lemma_strip_whitespace_clean(s);
    let m = style_chars(n);
    assert forall|i: int| 0 <= i < m.len() implies !is_whitespace_char(#[trigger] m[i]) by {
        assert(!is_whitespace_char(strip_whitespace(s)[i]));
    }
    lemma_strip_whitespace_none(m);
}

/// Serialising a displayed name gives what serialising the name gives:
/// display styling changes nothing that a stored name keeps.
pub proof fn lemma_serialize_prettify(s: Seq<char>)
    ensures
        serialize_spec(prettify_spec(s)) == serialize_spec(s),
{
    let t = strip_whitespace(s);
    let n = lowercase_all(t);
    let m = style_chars(n);
    lemma_strip_space_qualities(m);
    lemma_styled_letters(s);
    assert(serialize_spec(prettify_spec(s)) =~= serialize_spec(s));
}

/// Restyling the lower-case form of a styled character, next to the
/// lower-case form of its styled predecessor, gives the same character.
proof fn lemma_restyle_char(a: char, p: char, y: char)
    requires
        ascii_lower(p) == p,
        ascii_lower(y) == y,
        !is_whitespace_char(p),
    ensures
        styled_char(ascii_lower(styled_char(a, p)), ascii_lower(styled_char(p, y))) == styled_char(
            p,
            y,
        ),
{
}

/// Prettifying is idempotent: a displayed name is displayed unchanged.
pub proof fn lemma_prettify_idempotent(s: Seq<char>)
    ensures
        prettify_spec(prettify_spec(s)) == prettify_spec(s),
{
    let t = strip_whitespace(s);
    let n = lowercase_all(t);
    let m = style_chars(n);
    lemma_strip_whitespace_clean(s);
    lemma_strip_space_qualities(m);
    lemma_styled_letters(s);
    let z = lowercase_all(m);
    assert forall|i: int| 0 <= i < m.len() implies #[trigger] style_chars(z)[i] == m[i] by {
        if i == 0 {
            assert(!is_whitespace_char(t[0]));
        } else {
            assert(!is_whitespace_char(t[i - 1]));
            lemma_restyle_char(if i == 1 { ' ' } else { n[i - 2] }, n[i - 1], n[i]);
        }
    }
    assert(style_chars(z) =~= m);
}

/// Serialising is idempotent: a stored name is stored unchanged.
pub proof fn lemma_serialize_idempotent(s: Seq<char>)
    ensures
        serialize_spec(serialize_spec(s)) == serialize_spec(s),
{
    let t = serialize_spec(s);
    lemma_strip_whitespace_clean(s);
    assert forall|i: int| 0 <= i < t.len() implies !is_whitespace_char(#[trigger] t[i]) by {
        assert(!is_whitespace_char(strip_whitespace(s)[i]));
    }
    lemma_strip_whitespace_none(t);
    assert(serialize_spec(t) =~= t);
}

/// Whether the name `s` starts with the two characters `a` and `b`.
pub open spec fn starts_with2(s: Seq<char>, a: char, b: char) -> bool {
    s.len() >= 2 && s[0] == a && s[1] == b
}

/// The enharmonically equivalent root of a serialised chord name whose root
/// is a sharp or flat note: `c#` and `db`, `d#` and `eb`, `f#` and `gb`,
/// `g#` and `ab`, `a#` and `bb` name the same note.
pub open spec fn enharmonic_spec(s: Seq<char>) -> Option<Seq<char>> {
    if starts_with2(s, 'c', '#') {
        Some("db"@)
    } else if starts_with2(s, 'd', '#') {
        Some("eb"@)
    } else if starts_with2(s, 'f', '#') {
        Some("gb"@)
    } else if starts_with2(s, 'g', '#') {
        Some("ab"@)
    } else if starts_with2(s, 'a', '#') {
        Some("bb"@)
    } else if starts_with2(s, 'd', 'b') {
        Some("c#"@)
    } else if starts_with2(s, 'e', 'b') {
        Some("d#"@)
    } else if starts_with2(s, 'g', 'b') {
        Some("f#"@)
    } else if starts_with2(s, 'a', 'b') {
        Some("g#"@)
    } else if starts_with2(s, 'b', 'b') {
        Some("a#"@)
    } else {
        None
    }
}

/// The root written the other way (`c#` for `db`, and so on) when the
/// serialised chord name starts with a sharp or flat root, else `None`.
/// Only the first two characters are looked at: they are ASCII whenever
/// they form one of these roots, so they are also its first two bytes.
pub fn enharmonic_equivalent(chord_name: &str) -> (r: Option<&'static str>)
    ensures
        match r {
            Some(e) => enharmonic_spec(chord_name@) == Some(e@),
            None => enharmonic_spec(chord_name@) is None,
        },
{
    let chars = chars_of(chord_name);
    if chars.len() < 2 {
        return None;
    }
    let a = chars[0];
    let b = chars[1];
    if a == 'c' && b == '#' {
        Some("db")
    } else if a == 'd' && b == '#' {
        Some("eb")
    } else if a == 'f' && b == '#' {
        Some("gb")
    } else if a == 'g' && b == '#' {
        Some("ab")
    } else if a == 'a' && b == '#' {
        Some("bb")
    } else if a == 'd' && b == 'b' {
        Some("c#")
    } else if a == 'e' && b == 'b' {
        Some("d#")
    } else if a == 'g' && b == 'b' {
        Some("f#")
    } else if a == 'a' && b == 'b' {
        Some("g#")
    } else if a == 'b' && b == 'b' {
        Some("a#")
    } else {
        None
    }
}

/// Semitones above A of a natural note written in lower case (`None` for a
/// character that is no note letter).
pub open spec fn letter_semitones(c: char) -> Option<int> {
    if c == 'a' {
        Some(0)
    } else if c == 'b' {
        Some(2)
    } else if c == 'c' {
        Some(3)
    } else if c == 'd' {
        Some(5)
    } else if c == 'e' {
        Some(7)
    } else if c == 'f' {
        Some(8)
    } else if c == 'g' {
        Some(10)
    } else {
        None
    }
}

/// The pitch class (semitones above A, below 12) of a root written as a
/// letter and an accidental: `#` raises it a semitone and `b` lowers it.
pub open spec fn root_pitch(letter: char, accidental: char) -> int {
    let shift = if accidental == '#' {
        1int
    } else if accidental == 'b' {
        -1int
    } else {
        0int
    };
    (letter_semitones(letter)->0 + shift + 12) % 12
}

/// A pitch class that no natural note has: a black key of the piano.
pub open spec fn black_key(p: int) -> bool {
    p == 1 || p == 4 || p == 6 || p == 9 || p == 11
}

/// The enharmonic equivalent spells the same pitch the other way. A name
/// gets one exactly when it begins with a note letter and `#` or `b` that
/// together sound a black key; the equivalent is then a note letter with
/// the other accidental that sounds the same pitch class.
pub proof fn lemma_enharmonic_same_pitch(s: Seq<char>)
    ensures
        enharmonic_spec(s) is Some <==> (s.len() >= 2 && letter_semitones(s[0]) is Some && (s[1]
            == '#' || s[1] == 'b') && black_key(root_pitch(s[0], s[1]))),
        enharmonic_spec(s) matches Some(e) ==> {
            &&& e.len() == 2
            &&& letter_semitones(e[0]) is Some
            &&& (e[1] == '#' || e[1] == 'b')
            &&& e[1] != s[1]
            &&& root_pitch(e[0], e[1]) == root_pitch(s[0], s[1])
        },
{
    reveal_strlit("db");
    reveal_strlit("eb");
    reveal_strlit("gb");
    reveal_strlit("ab");
    reveal_strlit("bb");
    reveal_strlit("c#");
    reveal_strlit("d#");
    reveal_strlit("f#");
    reveal_strlit("g#");
    reveal_strlit("a#");
}

/// Taking the enharmonic equivalent twice gives back the root it started from.
pub proof fn lemma_enharmonic_involution(s: Seq<char>)
    requires
        enharmonic_spec(s) is Some,
    ensures
        enharmonic_spec(enharmonic_spec(s)->0) == Some(s.take(2)),
{
    reveal_strlit("db");
    reveal_strlit("eb");
    reveal_strlit("gb");
    reveal_strlit("ab");
    reveal_strlit("bb");
    reveal_strlit("c#");
    reveal_strlit("d#");
    reveal_strlit("f#");
    reveal_strlit("g#");
    reveal_strlit("a#");
    let e = enharmonic_spec(s)->0;
    let t = s.take(2);
    assert(t =~= seq![s[0], s[1]]);
    if starts_with2(s, 'c', '#') {
        assert(t =~= "c#"@);
    } else if starts_with2(s, 'd', '#') {
        assert(t =~= "d#"@);
    } else if starts_with2(s, 'f', '#') {
        assert(t =~= "f#"@);
    } else if starts_with2(s, 'g', '#') {
        assert(t =~= "g#"@);
    } else if starts_with2(s, 'a', '#') {
        assert(t =~= "a#"@);
    } else if starts_with2(s, 'd', 'b') {
        assert(t =~= "db"@);
    } else if starts_with2(s, 'e', 'b') {
        assert(t =~= "eb"@);
    } else if starts_with2(s, 'g', 'b') {
        assert(t =~= "gb"@);
    } else if starts_with2(s, 'a', 'b') {
        assert(t =~= "ab"@);
    } else {
        assert(t =~= "bb"@);
    }
}

} // verus!
