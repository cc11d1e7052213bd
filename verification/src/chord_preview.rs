//! The layout of a small chord preview: where it starts on the neck and
//! what each string shows.

use vstd::prelude::*;
use crate::chord_diagram::{
    column_of, drawable_from, neck_position_for, neck_position_spec, GuitarType,
};
use crate::chord_ops::{
    adjust_chord, adjusted_fret, barre_length_spec, find_barre_length, fretted, is_lowest_fret,
    special_case_chords,
};

verus! {

/// What a preview shows for one string.
#[derive(Clone, Copy, Debug, PartialEq, Eq, Structural)]
pub enum PreviewMark {
    /// A cross: the string is muted.
    Muted,
    /// A circle: the string is played open.
    Open,
    /// A dot on the given shown fret (0 for the first).
    Dot(usize),
}

/// The mark for a string value already moved to the preview's position.
pub open spec fn preview_mark(v: Option<usize>) -> PreviewMark {
    match v {
        None => PreviewMark::Muted,
        Some(n) => if n == 0 {
            PreviewMark::Open
        } else {
            PreviewMark::Dot((n - 1) as usize)
        },
    }
}

/// How a preview draws a fingering.
pub struct PreviewLayout {
    /// The neck position written beside the preview.
    pub neck_position: u8,
    /// The mark of each column.
    pub marks: [PreviewMark; 6],
    /// The length of the barre drawn (0 for none).
    pub barre_length: usize,
}

/// A fingering that presses some string has a lowest pressed fret.
proof fn lemma_lowest_fret_exists(chord: Seq<Option<usize>>, k: int)
    requires
        0 <= k <= chord.len(),
        exists|i: int| 0 <= i < k && #[trigger] fretted(chord[i]),
    ensures
        exists|m: usize| is_lowest_fret(chord.take(k), m),
    decreases k,
{
    let prefix = chord.take(k);
    let last = chord[k - 1];
    if exists|i: int| 0 <= i < k - 1 && #[trigger] fretted(chord[i]) {
        lemma_lowest_fret_exists(chord, k - 1);
        let prev = chord.take(k - 1);
        let m = choose|m: usize| is_lowest_fret(prev, m);
        let j = choose|j: int| 0 <= j < k - 1 && prev[j] == Some(m);
        assert(prefix[j] == Some(m));
        if fretted(last) && last->0 < m {
            assert(prefix[k - 1] == last);
            assert forall|i: int| 0 <= i < prefix.len() && #[trigger] fretted(prefix[i]) implies last->0
                <= prefix[i]->0 by {
                if i < k - 1 {
                    assert(chord.take(k - 1)[i] == prefix[i]);
                }
            }
            assert(is_lowest_fret(prefix, last->0));
        } else {
            assert forall|i: int| 0 <= i < prefix.len() && #[trigger] fretted(prefix[i]) implies m
                <= prefix[i]->0 by {
                if i < k - 1 {
                    assert(chord.take(k - 1)[i] == prefix[i]);
                }
            }
            assert(is_lowest_fret(prefix, m));
        }
    } else {
        assert(fretted(last));
        assert(prefix[k - 1] == last);
        assert forall|i: int| 0 <= i < prefix.len() && #[trigger] fretted(prefix[i]) implies last->0
            <= prefix[i]->0 by {
            if i < k - 1 {
                assert(fretted(chord[i]));
            }
        }
        assert(is_lowest_fret(prefix, last->0));
    }
}

/// A fingering can always be drawn from the neck position it is shown at.
pub proof fn lemma_drawable_from_own_position(chord: Seq<Option<usize>>)
    requires
        chord.len() == 6,
    ensures
        drawable_from(chord, neck_position_spec(chord)),
{
    if !special_case_chords().contains(chord) && exists|i: int|
        0 <= i < chord.len() && #[trigger] fretted(chord[i]) {
        lemma_lowest_fret_exists(chord, 6);
        assert(chord.take(6) =~= chord);
        let m = choose|m: usize| is_lowest_fret(chord, m);
        assert(is_lowest_fret(chord, m));
        let neck = neck_position_spec(chord);
        assert(neck == (m % 256) as u8);
        assert forall|i: int| 0 <= i < 6 && #[trigger] fretted(chord[i]) implies chord[i]->0 >= (
        if neck == 0 {
            0
        } else {
            neck - 1
        }) by {
            assert(m <= chord[i]->0);
        }
        assert forall|i: int| 0 <= i < 6 implies (#[trigger] chord[i] matches Some(n) ==> n == 0
            || n >= (if neck == 0 {
            0
        } else {
            neck - 1
        })) by {
            if chord[i] matches Some(n) && n > 0 {
                assert(fretted(chord[i]));
            }
        }
    } else {
        assert(neck_position_spec(chord) == 1);
    }
}

/// How a preview draws `chord`: from the neck position the chord is shown
/// at, each string moved to that position and marked, and the barre of the
/// moved fingering.
pub fn preview_layout(chord: [Option<usize>; 6], guitar_type: GuitarType) -> (r: PreviewLayout)
    ensures
        r.neck_position == neck_position_spec(chord@),
        forall|i: int|
            0 <= i < 6 ==> #[trigger] r.marks@[column_of(i, guitar_type)] == preview_mark(
                adjusted_fret(chord@[i], r.neck_position),
            ),
        r.barre_length == barre_length_spec(
            Seq::new(6, |i: int| adjusted_fret(chord@[i], r.neck_position)),
        ),
{
    let neck_position = neck_position_for(chord);
    proof {
        lemma_drawable_from_own_position(chord@);
    }
    let adjusted = adjust_chord(chord, neck_position);
    let mut marks: [PreviewMark; 6] = [
        PreviewMark::Muted,
        PreviewMark::Muted,
        PreviewMark::Muted,
        PreviewMark::Muted,
        PreviewMark::Muted,
        PreviewMark::Muted,
    ];
    let mut i: usize = 0;
    while i < 6
        invariant
            i <= 6,
            forall|j: int| 0 <= j < 6 ==> #[trigger] adjusted@[j] == adjusted_fret(chord@[j], neck_position),
            forall|j: int|
                0 <= j < i ==> #[trigger] marks@[column_of(j, guitar_type)] == preview_mark(
                    adjusted@[j],
                ),
        decreases 6 - i,
    {
        let col = match guitar_type {
            GuitarType::RightHanded => i,
            GuitarType::LeftHanded => 5 - i,
        };
        let mark = match adjusted[i] {
            None => PreviewMark::Muted,
            Some(n) => {
                if n == 0 {
                    PreviewMark::Open
                } else {
                    PreviewMark::Dot(n - 1)
                }
            },
        };
        marks[col] = mark;
        i = i + 1;
    }
    let barre_length = find_barre_length(adjusted);
    assert(adjusted@ =~= Seq::new(6, |i: int| adjusted_fret(chord@[i], neck_position)));
    PreviewLayout { neck_position, marks, barre_length }
}

} // verus!
