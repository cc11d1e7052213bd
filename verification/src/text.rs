//! Character-level text operations: whitespace removal, ASCII case mapping
//! and substring replacement, each stated over `Seq<char>`.

use vstd::prelude::*;

verus! {

broadcast use vstd::string::group_string_axioms;

/// The Unicode `White_Space` property, which `char::is_whitespace` tests.
pub open spec fn is_whitespace_char(c: char) -> bool {
    ||| ('\u{9}' <= c && c <= '\u{d}')
    ||| c == ' '
    ||| c == '\u{85}'
    ||| c == '\u{a0}'
    ||| c == '\u{1680}'
    ||| ('\u{2000}' <= c && c <= '\u{200a}')
    ||| c == '\u{2028}'
    ||| c == '\u{2029}'
    ||| c == '\u{202f}'
    ||| c == '\u{205f}'
    ||| c == '\u{3000}'
}

/// `c` with an ASCII upper-case letter mapped to lower case.
pub open spec fn ascii_lower(c: char) -> char {
    if 'A' <= c && c <= 'Z' {
        ((c as u32) + 32) as char
    } else {
        c
    }
}

/// `c` with an ASCII lower-case letter mapped to upper case.
pub open spec fn ascii_upper(c: char) -> char {
    if 'a' <= c && c <= 'z' {
        ((c as u32) - 32) as char
    } else {
        c
    }
}

/// `s` with every whitespace character removed.
pub open spec fn strip_whitespace(s: Seq<char>) -> Seq<char>
    decreases s.len(),
{
    if s.len() == 0 {
        s
    } else if is_whitespace_char(s.last()) {
        strip_whitespace(s.drop_last())
    } else {
        strip_whitespace(s.drop_last()).push(s.last())
    }
}

/// `s` with every ASCII upper-case letter in lower case.
pub open spec fn lowercase_all(s: Seq<char>) -> Seq<char> {
    s.map_values(|c: char| ascii_lower(c))
}

/// Left-to-right replacement of every non-overlapping occurrence of `pat`
/// in `s` by `rep`, as `str::replace` does for a non-empty pattern.
pub open spec fn replace_all(s: Seq<char>, pat: Seq<char>, rep: Seq<char>) -> Seq<char>
    decreases s.len(),
{
    if pat.len() == 0 || s.len() < pat.len() {
        s
    } else if s.take(pat.len() as int) == pat {
        rep + replace_all(s.skip(pat.len() as int), pat, rep)
    } else {
        seq![s[0]] + replace_all(s.skip(1), pat, rep)
    }
}

/// What `str::to_lowercase` returns: the Unicode lower-case mapping of a
/// text, which depends on the text alone.
pub uninterp spec fn unicode_lowercase(s: Seq<char>) -> Seq<char>;

/// `str::to_lowercase`: the Unicode lower-case form of `s`. Nothing more than
/// that it is a function of the text is stated of it.
#[verifier::external_body]
pub(crate) fn to_lowercase(s: &str) -> (r: String)
    ensures
        r@ == unicode_lowercase(s@),
{
    s.to_lowercase()
}

/// Whether `c` has the Unicode `White_Space` property, as
/// `char::is_whitespace` tests it.
pub(crate) fn is_whitespace(c: char) -> (r: bool)
    ensures
        r == is_whitespace_char(c),
{
    ('\u{9}' <= c && c <= '\u{d}') || c == ' ' || c == '\u{85}' || c == '\u{a0}' || c
        == '\u{1680}' || ('\u{2000}' <= c && c <= '\u{200a}') || c == '\u{2028}' || c
        == '\u{2029}' || c == '\u{202f}' || c == '\u{205f}' || c == '\u{3000}'
}

/// `c` with 'A'..='Z' mapped to 'a'..='z' and every other character
/// unchanged, as `char::to_ascii_lowercase` does.
pub(crate) fn to_ascii_lowercase(c: char) -> (r: char)
    ensures
        r == ascii_lower(c),
{
    if 'A' <= c && c <= 'Z' {
        let b: u8 = c as u8;
        assert(b == c as u32);
        (b + 32) as char
    } else {
        c
    }
}

/// `c` with 'a'..='z' mapped to 'A'..='Z' and every other character
/// unchanged, as `char::to_ascii_uppercase` does.
pub(crate) fn to_ascii_uppercase(c: char) -> (r: char)
    ensures
        r == ascii_upper(c),
{
    if 'a' <= c && c <= 'z' {
        let b: u8 = c as u8;
        assert(b == c as u32);
        (b - 32) as char
    } else {
        c
    }
}

/// Collecting characters into a `String` (`FromIterator<&char>`): the string
/// holds exactly those characters, in order.
#[verifier::external_body]
pub(crate) fn string_from_chars(chars: &Vec<char>) -> (r: String)
    ensures
        r@ == chars@,
{
    chars.iter().collect()
}

/// The characters of `s`, in order.
pub fn chars_of(s: &str) -> (r: Vec<char>)
    ensures
        r@ == s@,
{
    let mut v: Vec<char> = Vec::new();
    for c in it: s.chars()
        invariant
            v@ == it.seq().take(it.index() as int),
    {
        v.push(c);
    }
    v
}

/// Removing whitespace commutes with concatenation.
pub proof fn lemma_strip_whitespace_add(a: Seq<char>, b: Seq<char>)
    ensures
        strip_whitespace(a + b) == strip_whitespace(a) + strip_whitespace(b),
    decreases b.len(),
{
    if b.len() == 0 {
        assert(a + b =~= a);
        assert(strip_whitespace(a) + strip_whitespace(b) =~= strip_whitespace(a));
    } else {
        assert((a + b).drop_last() =~= a + b.drop_last());
        lemma_strip_whitespace_add(a, b.drop_last());
        if is_whitespace_char(b.last()) {
        } else {
            assert(strip_whitespace(a) + strip_whitespace(b.drop_last()).push(b.last())
                =~= (strip_whitespace(a) + strip_whitespace(b.drop_last())).push(b.last()));
        }
    }
}

/// A sequence without whitespace is left unchanged by removing whitespace.
pub proof fn lemma_strip_whitespace_none(s: Seq<char>)
    requires
        forall|i: int| 0 <= i < s.len() ==> !is_whitespace_char(#[trigger] s[i]),
    ensures
        strip_whitespace(s) == s,
    decreases s.len(),
{
    if s.len() > 0 {
        lemma_strip_whitespace_none(s.drop_last());
        assert(s.drop_last().push(s.last()) =~= s);
    }
}

/// Whatever `strip_whitespace` returns holds no whitespace.
pub proof fn lemma_strip_whitespace_clean(s: Seq<char>)
    ensures
        forall|i: int|
            0 <= i < strip_whitespace(s).len() ==> !is_whitespace_char(
                #[trigger] strip_whitespace(s)[i],
            ),
    decreases s.len(),
{
    if s.len() > 0 {
        let t = strip_whitespace(s.drop_last());
        lemma_strip_whitespace_clean(s.drop_last());
        if !is_whitespace_char(s.last()) {
            assert forall|i: int| 0 <= i < t.len() implies strip_whitespace(s)[i] == t[i] by {}
        }
    }
}

/// Replacing a pattern by a text that equals it once whitespace is removed
/// leaves the whitespace-free text unchanged.
pub proof fn lemma_strip_replace_all(s: Seq<char>, pat: Seq<char>, rep: Seq<char>)
    requires
        strip_whitespace(rep) == strip_whitespace(pat),
    ensures
        strip_whitespace(replace_all(s, pat, rep)) == strip_whitespace(s),
    decreases s.len(),
{
    if pat.len() == 0 || s.len() < pat.len() {
    } else if s.take(pat.len() as int) == pat {
        let rest = s.skip(pat.len() as int);
        lemma_strip_replace_all(rest, pat, rep);
        lemma_strip_whitespace_add(rep, replace_all(rest, pat, rep));
        assert(s =~= pat + rest);
        lemma_strip_whitespace_add(pat, rest);
    } else {
        let rest = s.skip(1);
        lemma_strip_replace_all(rest, pat, rep);
        lemma_strip_whitespace_add(seq![s[0]], replace_all(rest, pat, rep));
        assert(s =~= seq![s[0]] + rest);
        lemma_strip_whitespace_add(seq![s[0]], rest);
    }
}

/// Whether `pat` occurs in `s` starting at index `start`.
fn occurs_at(s: &Vec<char>, start: usize, pat: &Vec<char>) -> (r: bool)
    requires
        start + pat.len() <= s.len(),
    ensures
        r == (s@.subrange(start as int, start + pat.len()) == pat@),
{
    let mut k: usize = 0;
    while k < pat.len()
        invariant
            start + pat.len() <= s.len(),
            k <= pat.len(),
            forall|j: int| 0 <= j < k ==> s@[start + j] == pat@[j],
        decreases pat.len() - k,
    {
        if s[start + k] != pat[k] {
            assert(s@.subrange(start as int, start + pat.len())[k as int] != pat@[k as int]);
            return false;
        }
        k = k + 1;
    }
    assert(s@.subrange(start as int, start + pat.len()) =~= pat@);
    true
}

/// `s` with every non-overlapping occurrence of `pat`, found from left to
/// right, replaced by `rep` (what `str::replace` computes).
pub fn replace_all_chars(s: &Vec<char>, pat: &str, rep: &str) -> (r: Vec<char>)
    requires
        pat@.len() > 0,
    ensures
        r@ == replace_all(s@, pat@, rep@),
{
    let pat = chars_of(pat);
    let rep = chars_of(rep);
    let mut out: Vec<char> = Vec::new();
    let mut i: usize = 0;
    assert(s@.skip(0) =~= s@);
    assert(out@ + replace_all(s@, pat@, rep@) =~= replace_all(s@, pat@, rep@));
    while i < s.len()
        invariant
            pat@.len() > 0,
            i <= s.len(),
            out@ + replace_all(s@.skip(i as int), pat@, rep@) == replace_all(s@, pat@, rep@),
        decreases s.len() - i,
    {
        let rest = Ghost(s@.skip(i as int));
        if s.len() - i >= pat.len() && occurs_at(s, i, &pat) {
            assert(rest@.take(pat@.len() as int) =~= s@.subrange(i as int, i + pat@.len()));
            assert(rest@.skip(pat@.len() as int) =~= s@.skip(i + pat@.len()));
            let ghost before = out@;
            let mut k: usize = 0;
            while k < rep.len()
                invariant
                    k <= rep.len(),
                    out@ == before + rep@.take(k as int),
                decreases rep.len() - k,
            {
                out.push(rep[k]);
                k = k + 1;
                assert(out@ =~= before + rep@.take(k as int));
            }
            assert(rep@.take(rep@.len() as int) =~= rep@);
            assert(out@ + replace_all(s@.skip(i + pat@.len()), pat@, rep@) =~= before + (rep@
                + replace_all(rest@.skip(pat@.len() as int), pat@, rep@)));
            i = i + pat.len();
        } else {
            if s.len() - i >= pat.len() {
                assert(rest@.take(pat@.len() as int) =~= s@.subrange(i as int, i + pat@.len()));
            }
            assert(rest@.skip(1) =~= s@.skip(i + 1));
            assert(rest@ =~= seq![s@[i as int]] + rest@.skip(1));
            let ghost before = out@;
            out.push(s[i]);
            if s.len() - i < pat.len() {
                assert(replace_all(rest@.skip(1), pat@, rep@) == rest@.skip(1));
            }
            assert(out@ + replace_all(s@.skip(i + 1), pat@, rep@) =~= before + (seq![s@[i as int]]
                + replace_all(rest@.skip(1), pat@, rep@)));
            i = i + 1;
        }
    }
    assert(s@.skip(i as int) =~= Seq::<char>::empty());
    assert(out@ + Seq::<char>::empty() =~= out@);
    out
}

} // verus!
