//! The logic of the chord name entry: how it reacts to edits, what it shows
//! after its text is set, and the enharmonic swap of the root.

use vstd::prelude::*;
use crate::chord_ops::{
    enharmonic_equivalent, enharmonic_spec, lemma_serialize_prettify, prettify_chord_name,
    prettify_spec, serialize_chord_name, serialize_spec,
};
use crate::chord_ops::lemma_enharmonic_involution;
use crate::text::{chars_of, lemma_strip_whitespace_add, lemma_strip_whitespace_none, string_from_chars};

verus! {

broadcast use vstd::string::group_string_axioms;

/// How the entry reacts to a change of its text.
#[derive(Clone, Copy, Debug, PartialEq, Eq, Structural)]
pub enum EntryReaction {
    /// The change was made by the entry itself: only clear that mark.
    Ignore,
    /// Reveal the button that confirms the edited name.
    ShowConfirmButton,
    /// Keep the enharmonic button revealed.
    KeepRevealed,
    /// Hide the revealer.
    Hide,
}

/// The reaction to the entry's text becoming `entry_text` while the last
/// confirmed name is `buffer`.
pub fn entry_changed_reaction(
    programmatically_changed: bool,
    entry_text: &str,
    buffer: &str,
    has_enharmonic_equivalent: bool,
) -> (r: EntryReaction)
    ensures
        r == (if programmatically_changed {
            EntryReaction::Ignore
        } else if entry_text@ != buffer@ && entry_text@.len() > 0 {
            EntryReaction::ShowConfirmButton
        } else if has_enharmonic_equivalent && entry_text@.len() > 0 {
            EntryReaction::KeepRevealed
        } else {
            EntryReaction::Hide
        }),
{
    if programmatically_changed {
        return EntryReaction::Ignore;
    }
    let changed = entry_text.to_owned() != buffer.to_owned();
    let empty = entry_text.is_empty();
    if changed && !empty {
        EntryReaction::ShowConfirmButton
    } else if has_enharmonic_equivalent && !empty {
        EntryReaction::KeepRevealed
    } else {
        EntryReaction::Hide
    }
}

/// What the entry shows once its text is set to a name: the name displayed,
/// and the label of the enharmonic button when the root has another
/// spelling.
pub struct EntryText {
    pub text: String,
    pub enharmonic_label: Option<String>,
}

/// The entry's display after its text is overwritten with `text`: the
/// prettified text, and the prettified enharmonic equivalent of its root if
/// there is one.
pub fn overwrite_text(text: &str) -> (r: EntryText)
    ensures
        r.text@ == prettify_spec(text@),
        match enharmonic_spec(serialize_spec(text@)) {
            Some(root) => r.enharmonic_label matches Some(label) && label@ == prettify_spec(root),
            None => r.enharmonic_label is None,
        },
{
    let shown = prettify_chord_name(text);
    let label = calculate_enharmonic_equivalent(shown.as_str());
    proof {
        lemma_serialize_prettify(text@);
    }
    EntryText { text: shown, enharmonic_label: label }
}

/// The label of the enharmonic button for the chord name `chord_name`: its
/// root spelled the other way, prettified, if it has one.
pub fn calculate_enharmonic_equivalent(chord_name: &str) -> (r: Option<String>)
    ensures
        match enharmonic_spec(serialize_spec(chord_name@)) {
            Some(root) => r matches Some(label) && label@ == prettify_spec(root),
            None => r is None,
        },
{
    let serialized = serialize_chord_name(chord_name);
    match enharmonic_equivalent(serialized.as_str()) {
        Some(equivalent) => Some(prettify_chord_name(equivalent)),
        None => None,
    }
}

/// The name with its root replaced by `enharmonic`: `enharmonic` followed by
/// all characters of `text` after the first two.
pub fn swap_enharmonic(enharmonic: &str, text: &str) -> (r: String)
    ensures
        r@ == enharmonic@ + (if text@.len() >= 2 {
            text@.skip(2)
        } else {
            Seq::empty()
        }),
{
    let chars = chars_of(text);
    let mut rest: Vec<char> = Vec::new();
    let mut i: usize = 2;
    while i < chars.len()
        invariant
            2 <= i,
            chars@ == text@,
            chars@.len() >= 2 ==> i <= chars@.len() && rest@ == chars@.subrange(2, i as int),
            chars@.len() < 2 ==> rest@.len() == 0,
        decreases chars.len() - i,
    {
        rest.push(chars[i]);
        i = i + 1;
        assert(rest@ =~= chars@.subrange(2, i as int));
    }
    if chars.len() >= 2 {
        assert(chars@.subrange(2, i as int) =~= chars@.skip(2));
    }
    assert(rest@ =~= (if text@.len() >= 2 {
        text@.skip(2)
    } else {
        Seq::empty()
    }));
    let mut name = String::from_str(enharmonic);
    let tail = string_from_chars(&rest);
    name.append(tail.as_str());
    name
}

/// Serialising a concatenation serialises each part.
proof fn lemma_serialize_add(a: Seq<char>, b: Seq<char>)
    ensures
        serialize_spec(a + b) == serialize_spec(a) + serialize_spec(b),
{
    lemma_strip_whitespace_add(a, b);
    assert(serialize_spec(a + b) =~= serialize_spec(a) + serialize_spec(b));
}

/// A root written with `#` or `b` is its own storage form.
proof fn lemma_serialized_root(e: Seq<char>)
    requires
        e.len() == 2,
        'a' <= e[0] && e[0] <= 'g',
        e[1] == '#' || e[1] == 'b',
    ensures
        serialize_spec(e) == e,
{
    lemma_strip_whitespace_none(e);
    assert(serialize_spec(e) =~= e);
}

/// The enharmonic root depends on the first two characters only.
proof fn lemma_enharmonic_prefix(a: Seq<char>, b: Seq<char>)
    requires
        a.len() >= 2,
    ensures
        enharmonic_spec(a + b) == enharmonic_spec(a),
{
    assert((a + b)[0] == a[0] && (a + b)[1] == a[1]);
}

/// After the root of a name is swapped for its enharmonic twin (shown
/// prettified), the name offers the root it had before: the enharmonic
/// root of the new name is the first two characters of the old stored name.
pub proof fn lemma_swap_offers_previous_root(text: Seq<char>)
    requires
        enharmonic_spec(serialize_spec(text)) is Some,
    ensures
        ({
            let root = enharmonic_spec(serialize_spec(text))->0;
            let tail = if text.len() >= 2 {
                text.skip(2)
            } else {
                Seq::empty()
            };
            enharmonic_spec(serialize_spec(prettify_spec(root) + tail)) == Some(
                serialize_spec(text).take(2),
            )
        }),
{
    let s = serialize_spec(text);
    let root = enharmonic_spec(s)->0;
    let tail = if text.len() >= 2 {
        text.skip(2)
    } else {
        Seq::empty()
    };
    lemma_enharmonic_involution(s);
    reveal_strlit("db");
    reveal_strlit("eb");
    reveal_strlit("gb");
    reveal_strlit("ab");
    reveal_strlit("bb");
    reveal_strlit("c#");
    reveal_strlit("d#");
    reveal_strlit("f#");
    reveal_strlit("g#");
    reveal_strlit("a#");
    lemma_serialized_root(root);
    lemma_serialize_prettify(root);
    lemma_serialize_add(prettify_spec(root), tail);
    lemma_enharmonic_prefix(root, serialize_spec(tail));
}

} // verus!
