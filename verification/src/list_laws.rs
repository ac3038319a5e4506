//! How lists without duplicates grow, and how texts are ordered.

use vstd::prelude::*;

use crate::lists;

verus! {

/// Items are kept where they occur first: what is kept of the beginning of a list is the
/// beginning of what is kept of it.
pub proof fn first_occurrences_are_kept(a: Seq<Seq<char>>, b: Seq<Seq<char>>)
    ensures
        ({
            let all = lists::distinct(a + b);
            let first = lists::distinct(a);
            first.len() <= all.len() && all.take(first.len() as int) == first
        }),
        a.no_duplicates() ==> lists::distinct(a) == a,
    decreases a.len() + b.len(),
{
    if b.len() > 0 {
        let all = lists::distinct(a + b);
        let before = lists::distinct(a + b.drop_last());
        let first = lists::distinct(a);
        assert((a + b).drop_last() =~= a + b.drop_last());
        first_occurrences_are_kept(a, b.drop_last());
        assert(all.take(first.len() as int) =~= before.take(first.len() as int));
    } else {
        assert(a + b =~= a);
        assert(lists::distinct(a).take(lists::distinct(a).len() as int) =~= lists::distinct(a));
        if a.no_duplicates() && a.len() > 0 {
            let t = a.drop_last();
            assert(t.no_duplicates());
            first_occurrences_are_kept(t, b);
            assert(!t.contains(a.last())) by {
                if t.contains(a.last()) {
                    let i = choose|i: int| 0 <= i < t.len() && t[i] == a.last();
                    assert(a[i] == a[a.len() - 1]);
                }
            }
            assert(t.push(a.last()) =~= a);
        } else if a.len() == 0 {
            assert(a =~= lists::distinct(a));
        }
    }
}

/// A list that further items are put into keeps its own items where they are, and holds
/// the others behind them, each once.
pub proof fn lists_grow_at_their_end(s: Seq<Seq<char>>, more: Seq<Seq<char>>)
    ensures
        ({
            let all = lists::with_all_new(s, more);
            &&& s.len() <= all.len() && all.take(s.len() as int) == s
            &&& forall|x: Seq<char>| #[trigger] all.contains(x) <==> s.contains(x) || more.contains(
                x,
            )
            &&& s.no_duplicates() ==> all.no_duplicates()
        }),
    decreases more.len(),
{
    if more.len() > 0 {
        let t = more.drop_last();
        let x = more.last();
        let before = lists::with_all_new(s, t);
        let all = lists::with_all_new(s, more);
        lists_grow_at_their_end(s, t);
        assert(all.take(s.len() as int) =~= before.take(s.len() as int));
        assert forall|y: Seq<char>| #[trigger] all.contains(y) <==> s.contains(y) || more.contains(
            y,
        ) by {
            lists::lemma_last_contains(more, y);
            lists::lemma_push_contains(before, x, y);
            assert(before.contains(y) <==> s.contains(y) || t.contains(y));
        }
        if s.no_duplicates() && !before.contains(x) {
            assert forall|i: int, j: int|
                0 <= i < all.len() && 0 <= j < all.len() && i != j implies all[i] != all[j] by {
                if i < before.len() {
                    assert(before.contains(before[i]));
                }
                if j < before.len() {
                    assert(before.contains(before[j]));
                }
            }
        }
    } else {
        assert(s.take(s.len() as int) =~= s);
        assert forall|y: Seq<char>| !#[trigger] more.contains(y) by {}
    }
}

/// Texts are ordered by the first character in which they differ; a text comes before
/// those that it begins.
pub proof fn texts_are_ordered_by_their_first_difference(
    start: Seq<char>,
    a: Seq<char>,
    b: Seq<char>,
)
    ensures
        lists::text_le(start, start + a),
        a.len() > 0 ==> !lists::text_le(start + a, start),
        a.len() > 0 && b.len() > 0 && a[0] < b[0] ==> lists::text_le(start + a, start + b)
            && !lists::text_le(start + b, start + a),
    decreases start.len(),
{
    if start.len() > 0 {
        let t = start.drop_first();
        assert((start + a).drop_first() =~= t + a);
        assert((start + b).drop_first() =~= t + b);
        texts_are_ordered_by_their_first_difference(t, a, b);
    } else {
        assert(start + a =~= a);
        assert(start + b =~= b);
    }
}

} // verus!
