//! The chord file: chords separated by blank lines, each a name line
//! followed by one line per fingering of six fret numbers (`x` for a muted
//! string) separated by whitespace.

use vstd::prelude::*;
use crate::database::Chord;
use crate::text::{chars_of, is_whitespace, is_whitespace_char, string_from_chars};

verus! {

broadcast use vstd::string::group_string_axioms;

/// A line without the carriage return that ends it, if any.
pub open spec fn strip_carriage_return(line: Seq<char>) -> Seq<char> {
    if line.len() > 0 && line.last() == '\r' {
        line.drop_last()
    } else {
        line
    }
}

/// The lines of `s` after the line `cur` in progress and the finished lines
/// `done`: lines end at `\n`, a `\r` before the `\n` is dropped, and a last
/// line without `\n` is kept when it is not empty.
pub open spec fn lines_from(s: Seq<char>, cur: Seq<char>, done: Seq<Seq<char>>) -> Seq<Seq<char>>
    decreases s.len(),
{
    if s.len() == 0 {
        if cur.len() == 0 {
            done
        } else {
            done.push(cur)
        }
    } else if s[0] == '\n' {
        lines_from(s.drop_first(), Seq::empty(), done.push(strip_carriage_return(cur)))
    } else {
        lines_from(s.drop_first(), cur.push(s[0]), done)
    }
}

/// The lines of a text, as `str::lines` splits it.
pub open spec fn text_lines(s: Seq<char>) -> Seq<Seq<char>> {
    lines_from(s, Seq::empty(), Seq::empty())
}

/// The groups of lines of `ls` after the group `cur` in progress and the
/// finished groups `done`: every empty line ends a group.
pub open spec fn groups_from(
    ls: Seq<Seq<char>>,
    cur: Seq<Seq<char>>,
    done: Seq<Seq<Seq<char>>>,
) -> Seq<Seq<Seq<char>>>
    decreases ls.len(),
{
    if ls.len() == 0 {
        done.push(cur)
    } else if ls[0].len() == 0 {
        groups_from(ls.drop_first(), Seq::empty(), done.push(cur))
    } else {
        groups_from(ls.drop_first(), cur.push(ls[0]), done)
    }
}

/// The lines split at empty lines, as `<[_]>::split` with the predicate
/// "is empty" splits them (so `n` empty lines make `n + 1` groups).
pub open spec fn paragraphs(ls: Seq<Seq<char>>) -> Seq<Seq<Seq<char>>> {
    groups_from(ls, Seq::empty(), Seq::empty())
}

/// The pieces of `s` after the piece `cur` in progress and the finished
/// pieces `done`: every whitespace character ends a piece.
pub open spec fn pieces_from(s: Seq<char>, cur: Seq<char>, done: Seq<Seq<char>>) -> Seq<
    Seq<char>,
>
    decreases s.len(),
{
    if s.len() == 0 {
        done.push(cur)
    } else if is_whitespace_char(s[0]) {
        pieces_from(s.drop_first(), Seq::empty(), done.push(cur))
    } else {
        pieces_from(s.drop_first(), cur.push(s[0]), done)
    }
}

/// `s` split at each whitespace character, as `str::split` with
/// `char::is_whitespace` splits it (so `n` whitespace characters make
/// `n + 1` pieces, some possibly empty).
pub open spec fn split_at_whitespace(s: Seq<char>) -> Seq<Seq<char>> {
    pieces_from(s, Seq::empty(), Seq::empty())
}

/// Whether `c` is an ASCII decimal digit.
pub open spec fn is_digit(c: char) -> bool {
    '0' <= c && c <= '9'
}

/// The number written by the decimal digits `ds`.
pub open spec fn decimal_value(ds: Seq<char>) -> int
    decreases ds.len(),
{
    if ds.len() == 0 {
        0
    } else {
        decimal_value(ds.drop_last()) * 10 + ((ds.last() as int) - ('0' as int))
    }
}

/// The digits of a number: the text without one leading `+`.
pub open spec fn unsigned_digits(token: Seq<char>) -> Seq<char> {
    if token.len() > 0 && token[0] == '+' {
        token.drop_first()
    } else {
        token
    }
}

/// Whether every character of `ds` is a decimal digit.
pub open spec fn all_digits(ds: Seq<char>) -> bool {
    forall|i: int| 0 <= i < ds.len() ==> is_digit(#[trigger] ds[i])
}

/// What `<usize as FromStr>::from_str` accepts: an optional `+` followed by
/// at least one decimal digit, with a value that fits in a `usize`.
pub open spec fn parse_usize_spec(token: Seq<char>) -> Option<usize> {
    let digits = unsigned_digits(token);
    if digits.len() > 0 && all_digits(digits) && decimal_value(digits) <= usize::MAX {
        Some(decimal_value(digits) as usize)
    } else {
        None
    }
}

/// One string of a fingering line: `x` is a muted string, anything else
/// must be a fret number.
pub open spec fn parse_fret_spec(token: Seq<char>) -> Option<Option<usize>> {
    if token == seq!['x'] {
        Some(None)
    } else {
        match parse_usize_spec(token) {
            Some(n) => Some(Some(n)),
            None => None,
        }
    }
}

/// Whether each of the six pieces is a valid string.
pub open spec fn all_frets_valid(pieces: Seq<Seq<char>>) -> bool {
    forall|i: int| 0 <= i < 6 ==> #[trigger] parse_fret_spec(pieces[i]) is Some
}

/// A fingering line: exactly six pieces, each a valid string.
pub open spec fn parse_fingering_spec(line: Seq<char>) -> Option<Seq<Option<usize>>> {
    let pieces = split_at_whitespace(line);
    if pieces.len() == 6 && all_frets_valid(pieces) {
        Some(Seq::new(6, |i: int| parse_fret_spec(pieces[i])->0))
    } else {
        None
    }
}

/// A chord as plain values: its name and its fingerings.
pub type ChordEntry = (Seq<char>, Seq<Seq<Option<usize>>>);

/// Whether every line of `group` after the first is a fingering line.
pub open spec fn all_fingerings_valid(group: Seq<Seq<char>>) -> bool {
    forall|i: int| 1 <= i < group.len() ==> #[trigger] parse_fingering_spec(group[i]) is Some
}

/// A group of lines as a chord: the first line is the name, every further
/// line a fingering; `None` for an empty group or a bad fingering line.
pub open spec fn parse_entry_spec(group: Seq<Seq<char>>) -> Option<ChordEntry> {
    if group.len() > 0 && all_fingerings_valid(group) {
        Some(
            (
                group[0],
                Seq::new((group.len() - 1) as nat, |i: int| parse_fingering_spec(group[i + 1])->0),
            ),
        )
    } else {
        None
    }
}

/// Whether every group of lines is a chord.
pub open spec fn all_entries_valid(groups: Seq<Seq<Seq<char>>>) -> bool {
    forall|i: int| 0 <= i < groups.len() ==> #[trigger] parse_entry_spec(groups[i]) is Some
}

/// The chords that a chord file lists, or `None` when some group of lines
/// is not a chord.
pub open spec fn parse_chord_file_spec(s: Seq<char>) -> Option<Seq<ChordEntry>> {
    let groups = paragraphs(text_lines(s));
    if all_entries_valid(groups) {
        Some(Seq::new(groups.len(), |i: int| parse_entry_spec(groups[i])->0))
    } else {
        None
    }
}

/// A chord as plain values.
pub open spec fn chord_entry(chord: Chord) -> ChordEntry {
    (chord.name@, chord.positions@.map_values(|p: [Option<usize>; 6]| p@))
}

/// The texts that the ranges `rs` pick out of `chars`.
pub open spec fn range_texts(chars: Seq<char>, rs: Seq<(usize, usize)>) -> Seq<Seq<char>> {
    Seq::new(rs.len(), |k: int| chars.subrange(rs[k].0 as int, rs[k].1 as int))
}

/// Every range of `rs` lies within `len` characters.
pub open spec fn ranges_within(rs: Seq<(usize, usize)>, len: int) -> bool {
    forall|k: int| 0 <= k < rs.len() ==> #[trigger] rs[k].0 <= rs[k].1 && rs[k].1 <= len
}

/// The lines of `chars`, as ranges.
fn line_ranges(chars: &Vec<char>) -> (r: Vec<(usize, usize)>)
    ensures
        ranges_within(r@, chars@.len() as int),
        range_texts(chars@, r@) == text_lines(chars@),
{
    let ghost s = chars@;
    let mut out: Vec<(usize, usize)> = Vec::new();
    let mut start: usize = 0;
    let mut i: usize = 0;
    assert(s.skip(0) =~= s);
    assert(s.subrange(0, 0) =~= Seq::<char>::empty());
    assert(range_texts(s, out@) =~= Seq::<Seq<char>>::empty());
    while i < chars.len()
        invariant
            s == chars@,
            start <= i <= s.len(),
            ranges_within(out@, s.len() as int),
            lines_from(s.skip(i as int), s.subrange(start as int, i as int), range_texts(s, out@))
                == text_lines(s),
        decreases s.len() - i,
    {
        let ghost before = range_texts(s, out@);
        assert(s.skip(i as int).drop_first() =~= s.skip(i + 1));
        if chars[i] == '\n' {
            let end = if i > start && chars[i - 1] == '\r' {
                i - 1
            } else {
                i
            };
            assert(s.subrange(start as int, end as int) =~= strip_carriage_return(
                s.subrange(start as int, i as int),
            ));
            out.push((start, end));
            start = i + 1;
            assert(range_texts(s, out@) =~= before.push(s.subrange(out@.last().0 as int, end as int)));
            assert(s.subrange(start as int, i + 1) =~= Seq::<char>::empty());
        } else {
            assert(s.subrange(start as int, i + 1) =~= s.subrange(start as int, i as int).push(
                s[i as int],
            ));
        }
        i = i + 1;
    }
    assert(s.skip(i as int) =~= Seq::<char>::empty());
    if start < chars.len() {
        let ghost before = range_texts(s, out@);
        out.push((start, chars.len()));
        assert(range_texts(s, out@) =~= before.push(s.subrange(start as int, i as int)));
    }
    out
}

/// The lines given by the ranges `lines`, grouped at empty lines.
fn paragraph_ranges(chars: &Vec<char>, lines: &Vec<(usize, usize)>) -> (r: Vec<Vec<(usize, usize)>>)
    requires
        ranges_within(lines@, chars@.len() as int),
    ensures
        r@.len() == paragraphs(range_texts(chars@, lines@)).len(),
        forall|g: int|
            0 <= g < r@.len() ==> ranges_within(#[trigger] r@[g]@, chars@.len() as int)
                && range_texts(chars@, r@[g]@) == paragraphs(range_texts(chars@, lines@))[g],
{
    let ghost s = chars@;
    let ghost ls = range_texts(s, lines@);
    let mut done: Vec<Vec<(usize, usize)>> = Vec::new();
    let mut cur: Vec<(usize, usize)> = Vec::new();
    let mut i: usize = 0;
    assert(ls.skip(0) =~= ls);
    assert(range_texts(s, cur@) =~= Seq::<Seq<char>>::empty());
    assert(Seq::new(done@.len(), |g: int| range_texts(s, done@[g]@)) =~= Seq::<
        Seq<Seq<char>>,
    >::empty());
    while i < lines.len()
        invariant
            s == chars@,
            ls == range_texts(s, lines@),
            ranges_within(lines@, s.len() as int),
            i <= lines@.len(),
            ranges_within(cur@, s.len() as int),
            forall|g: int| 0 <= g < done@.len() ==> ranges_within(#[trigger] done@[g]@, s.len() as int),
            groups_from(
                ls.skip(i as int),
                range_texts(s, cur@),
                Seq::new(done@.len(), |g: int| range_texts(s, done@[g]@)),
            ) == paragraphs(ls),
        decreases lines.len() - i,
    {
        let ghost done_before = Seq::new(done@.len(), |g: int| range_texts(s, done@[g]@));
        let ghost cur_before = range_texts(s, cur@);
        assert(ls.skip(i as int).drop_first() =~= ls.skip(i + 1));
        assert(ls.skip(i as int)[0] == ls[i as int]);
        let (a, b) = lines[i];
        assert(lines@[i as int].0 <= lines@[i as int].1);
        if a == b {
            assert(ls[i as int].len() == 0);
            let mut finished: Vec<(usize, usize)> = Vec::new();
            std::mem::swap(&mut finished, &mut cur);
            done.push(finished);
            assert(Seq::new(done@.len(), |g: int| range_texts(s, done@[g]@)) =~= done_before.push(
                cur_before,
            ));
            assert(range_texts(s, cur@) =~= Seq::<Seq<char>>::empty());
        } else {
            cur.push((a, b));
            assert(range_texts(s, cur@) =~= cur_before.push(ls[i as int]));
            assert(Seq::new(done@.len(), |g: int| range_texts(s, done@[g]@)) =~= done_before);
        }
        i = i + 1;
    }
    assert(ls.skip(i as int) =~= Seq::<Seq<char>>::empty());
    let ghost done_before = Seq::new(done@.len(), |g: int| range_texts(s, done@[g]@));
    let ghost cur_before = range_texts(s, cur@);
    done.push(cur);
    assert(Seq::new(done@.len(), |g: int| range_texts(s, done@[g]@)) =~= done_before.push(
        cur_before,
    ));
    assert forall|g: int| 0 <= g < done@.len() implies range_texts(s, #[trigger] done@[g]@)
        == paragraphs(ls)[g] by {
        assert(Seq::new(done@.len(), |g: int| range_texts(s, done@[g]@))[g] == range_texts(
            s,
            done@[g]@,
        ));
    }
    done
}

/// The pieces, split at whitespace, of the text in `a..b`, as ranges.
fn piece_ranges(chars: &Vec<char>, a: usize, b: usize) -> (r: Vec<(usize, usize)>)
    requires
        a <= b <= chars@.len(),
    ensures
        ranges_within(r@, chars@.len() as int),
        range_texts(chars@, r@) == split_at_whitespace(chars@.subrange(a as int, b as int)),
{
    let ghost s = chars@;
    let ghost line = s.subrange(a as int, b as int);
    let mut out: Vec<(usize, usize)> = Vec::new();
    let mut start: usize = a;
    let mut i: usize = a;
    assert(line.skip(0) =~= line);
    assert(s.subrange(a as int, a as int) =~= Seq::<char>::empty());
    assert(range_texts(s, out@) =~= Seq::<Seq<char>>::empty());
    while i < b
        invariant
            s == chars@,
            line == s.subrange(a as int, b as int),
            a <= start <= i <= b <= s.len(),
            ranges_within(out@, s.len() as int),
            pieces_from(
                line.skip(i - a),
                s.subrange(start as int, i as int),
                range_texts(s, out@),
            ) == split_at_whitespace(line),
        decreases b - i,
    {
        let ghost before = range_texts(s, out@);
        assert(line.skip(i - a).drop_first() =~= line.skip(i + 1 - a));
        assert(line.skip(i - a)[0] == s[i as int]);
        if is_whitespace(chars[i]) {
            out.push((start, i));
            start = i + 1;
            assert(range_texts(s, out@) =~= before.push(s.subrange(out@.last().0 as int, i as int)));
            assert(s.subrange(start as int, i + 1) =~= Seq::<char>::empty());
        } else {
            assert(s.subrange(start as int, i + 1) =~= s.subrange(start as int, i as int).push(
                s[i as int],
            ));
        }
        i = i + 1;
    }
    assert(line.skip(i - a) =~= Seq::<char>::empty());
    let ghost before = range_texts(s, out@);
    out.push((start, b));
    assert(range_texts(s, out@) =~= before.push(s.subrange(start as int, b as int)));
    out
}

proof fn lemma_decimal_value_nonneg(ds: Seq<char>)
    requires
        forall|i: int| 0 <= i < ds.len() ==> is_digit(#[trigger] ds[i]),
    ensures
        decimal_value(ds) >= 0,
    decreases ds.len(),
{
    if ds.len() > 0 {
        lemma_decimal_value_nonneg(ds.drop_last());
    }
}

/// A number's prefix is worth no more than the number.
proof fn lemma_decimal_value_prefix(ds: Seq<char>, j: int)
    requires
        0 <= j <= ds.len(),
        forall|i: int| 0 <= i < ds.len() ==> is_digit(#[trigger] ds[i]),
    ensures
        decimal_value(ds.take(j)) <= decimal_value(ds),
    decreases ds.len(),
{
    if j < ds.len() {
        assert(ds.drop_last().take(j) =~= ds.take(j));
        lemma_decimal_value_prefix(ds.drop_last(), j);
        lemma_decimal_value_nonneg(ds.drop_last());
    } else {
        assert(ds.take(j) =~= ds);
    }
}

/// The fret given by the piece in `a..b`: `x` for a muted string, else a
/// number as `usize::from_str` reads it.
fn parse_fret(chars: &Vec<char>, a: usize, b: usize) -> (r: Option<Option<usize>>)
    requires
        a <= b <= chars@.len(),
    ensures
        r == parse_fret_spec(chars@.subrange(a as int, b as int)),
{
    let ghost token = chars@.subrange(a as int, b as int);
    if b - a == 1 && chars[a] == 'x' {
        assert(token =~= seq!['x']);
        return Some(None);
    }
    assert(token != seq!['x']) by {
        if token == seq!['x'] {
            assert(token[0] == 'x');
        }
    }
    let mut k: usize = a;
    if k < b && chars[k] == '+' {
        k = k + 1;
    }
    let ghost digits = chars@.subrange(k as int, b as int);
    assert(digits =~= unsigned_digits(token));
    if k == b {
        return None;
    }
    let first_digit = k;
    let mut value: usize = 0;
    assert(digits.take(0) =~= Seq::<char>::empty());
    while k < b
        invariant
            a <= first_digit <= k <= b <= chars@.len(),
            digits == chars@.subrange(first_digit as int, b as int),
            token == chars@.subrange(a as int, b as int),
            token != seq!['x'],
            digits == unsigned_digits(token),
            forall|i: int| 0 <= i < k - first_digit ==> is_digit(#[trigger] digits[i]),
            value == decimal_value(digits.take(k - first_digit)),
        decreases b - k,
    {
        let c = chars[k];
        assert(digits[k - first_digit] == c);
        if !('0' <= c && c <= '9') {
            assert(!is_digit(digits[k - first_digit]));
            assert(!all_digits(digits));
            return None;
        }
        let d = (c as u32 - '0' as u32) as usize;
        assert(digits.take(k + 1 - first_digit).drop_last() =~= digits.take(k - first_digit));
        assert(decimal_value(digits.take(k + 1 - first_digit)) == value * 10 + d);
        let next = match value.checked_mul(10) {
            Some(v) => v.checked_add(d),
            None => None,
        };
        match next {
            Some(v) => {
                value = v;
            },
            None => {
                proof {
                    if all_digits(digits) {
                        lemma_decimal_value_prefix(digits, k + 1 - first_digit);
                    }
                }
                return None;
            },
        }
        k = k + 1;
    }
    assert(digits.take(k - first_digit) =~= digits);
    Some(Some(value))
}

/// The fingering written on the line in `a..b`, if it is one.
fn parse_fingering(chars: &Vec<char>, a: usize, b: usize) -> (r: Option<[Option<usize>; 6]>)
    requires
        a <= b <= chars@.len(),
    ensures
        match r {
            Some(f) => parse_fingering_spec(chars@.subrange(a as int, b as int)) == Some(f@),
            None => parse_fingering_spec(chars@.subrange(a as int, b as int)) is None,
        },
{
    let ghost line = chars@.subrange(a as int, b as int);
    let pieces = piece_ranges(chars, a, b);
    let ghost texts = range_texts(chars@, pieces@);
    if pieces.len() != 6 {
        return None;
    }
    let mut fingering: [Option<usize>; 6] = [None, None, None, None, None, None];
    let mut i: usize = 0;
    while i < 6
        invariant
            i <= 6,
            pieces@.len() == 6,
            ranges_within(pieces@, chars@.len() as int),
            texts == range_texts(chars@, pieces@),
            texts == split_at_whitespace(line),
            line == chars@.subrange(a as int, b as int),
            forall|j: int| 0 <= j < i ==> #[trigger] parse_fret_spec(texts[j]) == Some(fingering@[j]),
        decreases 6 - i,
    {
        let (p, q) = pieces[i];
        assert(pieces@[i as int].0 <= pieces@[i as int].1 <= chars@.len());
        match parse_fret(chars, p, q) {
            Some(fret) => {
                fingering[i] = fret;
            },
            None => {
                assert(parse_fret_spec(texts[i as int]) is None);
                assert(!all_frets_valid(texts));
                return None;
            },
        }
        i = i + 1;
    }
    assert(Seq::new(6, |j: int| parse_fret_spec(texts[j])->0) =~= fingering@);
    Some(fingering)
}

/// The text in `a..b` of `chars`.
fn text_of(chars: &Vec<char>, a: usize, b: usize) -> (r: String)
    requires
        a <= b <= chars@.len(),
    ensures
        r@ == chars@.subrange(a as int, b as int),
{
    let mut out: Vec<char> = Vec::new();
    let mut k: usize = a;
    while k < b
        invariant
            a <= k <= b <= chars@.len(),
            out@ == chars@.subrange(a as int, k as int),
        decreases b - k,
    {
        out.push(chars[k]);
        k = k + 1;
        assert(out@ =~= chars@.subrange(a as int, k as int));
    }
    string_from_chars(&out)
}

/// The chord made of the lines given by `group`, if they form one.
fn parse_entry(chars: &Vec<char>, group: &Vec<(usize, usize)>) -> (r: Option<Chord>)
    requires
        ranges_within(group@, chars@.len() as int),
    ensures
        match r {
            Some(chord) => parse_entry_spec(range_texts(chars@, group@)) == Some(chord_entry(chord)),
            None => parse_entry_spec(range_texts(chars@, group@)) is None,
        },
{
    let ghost lines = range_texts(chars@, group@);
    if group.len() == 0 {
        return None;
    }
    let (a, b) = group[0];
    assert(group@[0].0 <= group@[0].1 <= chars@.len());
    let name = text_of(chars, a, b);
    let mut positions: Vec<[Option<usize>; 6]> = Vec::new();
    let mut k: usize = 1;
    while k < group.len()
        invariant
            1 <= k <= group@.len(),
            ranges_within(group@, chars@.len() as int),
            lines == range_texts(chars@, group@),
            positions@.len() == k - 1,
            forall|i: int|
                1 <= i < k ==> #[trigger] parse_fingering_spec(lines[i]) == Some(
                    positions@[i - 1]@,
                ),
        decreases group.len() - k,
    {
        let (p, q) = group[k];
        assert(group@[k as int].0 <= group@[k as int].1 <= chars@.len());
        match parse_fingering(chars, p, q) {
            Some(f) => {
                assert(lines[k as int] == chars@.subrange(p as int, q as int));
                positions.push(f);
            },
            None => {
                assert(lines[k as int] == chars@.subrange(p as int, q as int));
                assert(parse_fingering_spec(lines[k as int]) is None);
                assert(!all_fingerings_valid(lines));
                return None;
            },
        }
        k = k + 1;
    }
    let chord = Chord { name, positions };
    assert(all_fingerings_valid(lines));
    assert(chord_entry(chord).1 =~= Seq::new(
        (lines.len() - 1) as nat,
        |i: int| parse_fingering_spec(lines[i + 1])->0,
    ));
    Some(chord)
}

/// The chords listed by a chord file, in order, or `None` when the text is
/// not a chord file: when a group of lines between blank lines is empty, or
/// a line after a chord's name is not six whitespace-separated fields each
/// `x` or a fret number.
pub fn parse_chord_file(data: &str) -> (r: Option<Vec<Chord>>)
    ensures
        match r {
            Some(chords) => parse_chord_file_spec(data@) == Some(
                chords@.map_values(|c: Chord| chord_entry(c)),
            ),
            None => parse_chord_file_spec(data@) is None,
        },
{
    let chars = chars_of(data);
    let lines = line_ranges(&chars);
    let groups = paragraph_ranges(&chars, &lines);
    let ghost texts = paragraphs(text_lines(data@));
    let mut chords: Vec<Chord> = Vec::new();
    let mut g: usize = 0;
    while g < groups.len()
        invariant
            chars@ == data@,
            texts == paragraphs(text_lines(data@)),
            groups@.len() == texts.len(),
            forall|h: int|
                0 <= h < groups@.len() ==> ranges_within(#[trigger] groups@[h]@, chars@.len() as int)
                    && range_texts(chars@, groups@[h]@) == texts[h],
            g <= groups@.len(),
            chords@.len() == g,
            forall|h: int|
                0 <= h < g ==> #[trigger] parse_entry_spec(texts[h]) == Some(
                    chord_entry(chords@[h]),
                ),
        decreases groups.len() - g,
    {
        assert(ranges_within(groups@[g as int]@, chars@.len() as int));
        match parse_entry(&chars, &groups[g]) {
            Some(chord) => {
                chords.push(chord);
            },
            None => {
                assert(!all_entries_valid(texts));
                return None;
            },
        }
        g = g + 1;
    }
    assert(all_entries_valid(texts));
    assert(chords@.map_values(|c: Chord| chord_entry(c)) =~= Seq::new(
        texts.len(),
        |i: int| parse_entry_spec(texts[i])->0,
    ));
    Some(chords)
}

} // verus!
