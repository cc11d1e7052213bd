//! Bookmarked chords: a name and the fingering it was saved with.

use vstd::prelude::*;

verus! {

/// A bookmarked chord.
pub struct Bookmark {
    pub name: String,
    pub chord: [Option<usize>; 6],
}

/// A bookmark as plain values: its name and its fingering.
pub type BookmarkView = (Seq<char>, Seq<Option<usize>>);

impl View for Bookmark {
    type V = BookmarkView;

    open spec fn view(&self) -> BookmarkView {
        (self.name@, self.chord@)
    }
}

/// The bookmarks of a list as plain values.
pub open spec fn bookmark_views(list: Seq<Bookmark>) -> Seq<BookmarkView> {
    list.map_values(|b: Bookmark| b@)
}

/// `list` without every bookmark equal to `query`, the others kept in order.
pub open spec fn without(list: Seq<BookmarkView>, query: BookmarkView) -> Seq<BookmarkView>
    decreases list.len(),
{
    if list.len() == 0 {
        list
    } else if list[0] == query {
        without(list.drop_first(), query)
    } else {
        seq![list[0]] + without(list.drop_first(), query)
    }
}

impl Bookmark {
    /// Whether two bookmarks have the same name and the same fingering.
    pub fn same_as(&self, other: &Bookmark) -> (r: bool)
        ensures
            r == (self@ == other@),
    {
        if self.name != other.name {
            return false;
        }
        let mut i: usize = 0;
        while i < 6
            invariant
                i <= 6,
                forall|j: int| 0 <= j < i ==> self.chord@[j] == other.chord@[j],
            decreases 6 - i,
        {
            let same = match (self.chord[i], other.chord[i]) {
                (Some(x), Some(y)) => x == y,
                (None, None) => true,
                _ => false,
            };
            if !same {
                return false;
            }
            i = i + 1;
        }
        assert(self.chord@ =~= other.chord@);
        true
    }
}

/// Whether `query` is among the bookmarks.
pub fn is_bookmarked(bookmarks: &Vec<Bookmark>, query: &Bookmark) -> (r: bool)
    ensures
        r == bookmark_views(bookmarks@).contains(query@),
{
    let mut i: usize = 0;
    while i < bookmarks.len()
        invariant
            i <= bookmarks@.len(),
            forall|j: int| 0 <= j < i ==> bookmarks@[j]@ != query@,
        decreases bookmarks.len() - i,
    {
        if bookmarks[i].same_as(query) {
            assert(bookmark_views(bookmarks@)[i as int] == query@);
            return true;
        }
        i = i + 1;
    }
    assert(!bookmark_views(bookmarks@).contains(query@)) by {
        if bookmark_views(bookmarks@).contains(query@) {
            let j = choose|j: int|
                0 <= j < bookmark_views(bookmarks@).len() && bookmark_views(bookmarks@)[j]
                    == query@;
            assert(bookmarks@[j]@ == query@);
        }
    }
    false
}

/// Adds `bookmark` after the others.
pub fn add_bookmark(bookmarks: &mut Vec<Bookmark>, bookmark: Bookmark)
    ensures
        bookmark_views(final(bookmarks)@) == bookmark_views(old(bookmarks)@).push(bookmark@),
{
    let ghost b = bookmark@;
    bookmarks.push(bookmark);
    assert(bookmark_views(bookmarks@) =~= bookmark_views(old(bookmarks)@).push(b));
}

/// Removes every bookmark equal to `query`, keeping the others in order.
pub fn remove_bookmark(bookmarks: &mut Vec<Bookmark>, query: &Bookmark)
    ensures
        bookmark_views(final(bookmarks)@) == without(bookmark_views(old(bookmarks)@), query@),
{
    let ghost all = bookmark_views(bookmarks@);
    let mut rest: Vec<Bookmark> = Vec::new();
    std::mem::swap(&mut rest, bookmarks);
    let mut kept: Vec<Bookmark> = Vec::new();
    assert(bookmark_views(kept@) =~= Seq::<BookmarkView>::empty());
    assert(bookmark_views(kept@) + without(bookmark_views(rest@), query@) =~= without(
        bookmark_views(rest@),
        query@,
    ));
    while rest.len() > 0
        invariant
            bookmark_views(kept@) + without(bookmark_views(rest@), query@) == without(all, query@),
        decreases rest.len(),
    {
        let ghost views_before = bookmark_views(rest@);
        let ghost kept_before = bookmark_views(kept@);
        let b = rest.remove(0);
        assert(bookmark_views(rest@) =~= views_before.drop_first());
        if b.same_as(query) {
        } else {
            kept.push(b);
            assert(bookmark_views(kept@) =~= kept_before.push(views_before[0]));
            assert(bookmark_views(kept@) + without(bookmark_views(rest@), query@) =~= kept_before + (
            seq![views_before[0]] + without(views_before.drop_first(), query@)));
        }
    }
    assert(bookmark_views(rest@) =~= Seq::<BookmarkView>::empty());
    assert(bookmark_views(kept@) + Seq::<BookmarkView>::empty() =~= bookmark_views(kept@));
    *bookmarks = kept;
}

/// Removing a bookmark that is not in the list changes nothing.
proof fn lemma_without_absent(list: Seq<BookmarkView>, query: BookmarkView)
    requires
        !list.contains(query),
    ensures
        without(list, query) == list,
    decreases list.len(),
{
    if list.len() > 0 {
        assert(!list.drop_first().contains(query)) by {
            if list.drop_first().contains(query) {
                let j = choose|j: int| 0 <= j < list.drop_first().len() && list.drop_first()[j] == query;
                assert(list[j + 1] == query);
            }
        }
        lemma_without_absent(list.drop_first(), query);
        assert(list[0] != query);
        assert(seq![list[0]] + list.drop_first() =~= list);
    }
}

/// `without` of a list with one more bookmark at its end.
proof fn lemma_without_push(list: Seq<BookmarkView>, b: BookmarkView, query: BookmarkView)
    ensures
        without(list.push(b), query) == (if b == query {
            without(list, query)
        } else {
            without(list, query).push(b)
        }),
    decreases list.len(),
{
    if list.len() == 0 {
        assert(list.push(b).drop_first() =~= Seq::<BookmarkView>::empty());
        assert(list.push(b)[0] == b);
        assert(without(list, query) == list);
        assert(list =~= Seq::<BookmarkView>::empty());
        assert(seq![b] + Seq::<BookmarkView>::empty() =~= Seq::<BookmarkView>::empty().push(b));
    } else {
        assert(list.push(b).drop_first() =~= list.drop_first().push(b));
        assert(list.push(b)[0] == list[0]);
        lemma_without_push(list.drop_first(), b, query);
        if list[0] != query && b != query {
            assert(seq![list[0]] + without(list.drop_first(), query).push(b) =~= (seq![list[0]]
                + without(list.drop_first(), query)).push(b));
        }
    }
}

/// Bookmarking a chord and then removing its bookmark gives back the list
/// as it was, when the chord was not bookmarked before.
pub proof fn lemma_add_then_remove(list: Seq<BookmarkView>, b: BookmarkView)
    requires
        !list.contains(b),
    ensures
        without(list.push(b), b) == list,
{
    lemma_without_push(list, b, b);
    lemma_without_absent(list, b);
}

/// After its bookmark is removed a chord is no longer bookmarked, and every
/// other bookmark is kept.
pub proof fn lemma_remove_is_complete(list: Seq<BookmarkView>, query: BookmarkView, other: BookmarkView)
    ensures
        !without(list, query).contains(query),
        other != query ==> (without(list, query).contains(other) <==> list.contains(other)),
    decreases list.len(),
{
    if list.len() > 0 {
        lemma_remove_is_complete(list.drop_first(), query, other);
        let rest = without(list.drop_first(), query);
        if list[0] != query {
            let w = seq![list[0]] + rest;
            assert(!w.contains(query)) by {
                if w.contains(query) {
                    let j = choose|j: int| 0 <= j < w.len() && w[j] == query;
                    assert(j > 0);
                    assert(rest[j - 1] == query);
                }
            }
            if other != query {
                if w.contains(other) {
                    let j = choose|j: int| 0 <= j < w.len() && w[j] == other;
                    if j > 0 {
                        assert(rest[j - 1] == other);
                        let k = choose|k: int|
                            0 <= k < list.drop_first().len() && list.drop_first()[k] == other;
                        assert(list[k + 1] == other);
                    } else {
                        assert(list[0] == other);
                    }
                }
                if list.contains(other) {
                    let k = choose|k: int| 0 <= k < list.len() && list[k] == other;
                    if k > 0 {
                        assert(list.drop_first()[k - 1] == other);
                        let j = choose|j: int| 0 <= j < rest.len() && rest[j] == other;
                        assert(w[j + 1] == other);
                    } else {
                        assert(w[0] == other);
                    }
                }
            }
        } else if other != query {
            if list.contains(other) {
                let k = choose|k: int| 0 <= k < list.len() && list[k] == other;
                assert(k > 0);
                assert(list.drop_first()[k - 1] == other);
            }
            if list.drop_first().contains(other) {
                let k = choose|k: int| 0 <= k < list.drop_first().len() && list.drop_first()[k] == other;
                assert(list[k + 1] == other);
            }
        }
    }
}

/// Adding a bookmark makes the chord bookmarked.
pub proof fn lemma_add_makes_bookmarked(list: Seq<BookmarkView>, b: BookmarkView)
    ensures
        list.push(b).contains(b),
{
    assert(list.push(b)[list.len() as int] == b);
}

} // verus!
