//! Counting tiles that satisfy a predicate in a sequence, and how that
//! count behaves under push, update, removal, and permutation.

use vstd::prelude::*;

use crate::tile::Tile;

verus! {

/// How many entries of `s` satisfy `p`.
pub open spec fn count_tiles(s: Seq<Tile>, p: spec_fn(Tile) -> bool) -> nat
    decreases s.len(),
{
    if s.len() == 0 {
        0
    } else {
        count_tiles(s.drop_last(), p) + if p(s.last()) {
            1nat
        } else {
            0nat
        }
    }
}

/// Pushing one entry adds its contribution to the count.
pub proof fn lemma_count_push(s: Seq<Tile>, t: Tile, p: spec_fn(Tile) -> bool)
    ensures
        count_tiles(s.push(t), p) == count_tiles(s, p) + if p(t) {
            1nat
        } else {
            0nat
        },
{
    assert(s.push(t).drop_last() =~= s);
}

/// Replacing the entry at `i` exchanges its contribution for that of the
/// new entry.
pub proof fn lemma_count_update(s: Seq<Tile>, i: int, t: Tile, p: spec_fn(Tile) -> bool)
    requires
        0 <= i < s.len(),
    ensures
        count_tiles(s.update(i, t), p) + (if p(s[i]) {
            1nat
        } else {
            0nat
        }) == count_tiles(s, p) + if p(t) {
            1nat
        } else {
            0nat
        },
    decreases s.len(),
{
    if i == s.len() - 1 {
        assert(s.update(i, t).drop_last() =~= s.drop_last());
        assert(s.update(i, t).last() == t);
    } else {
        assert(s.update(i, t).drop_last() =~= s.drop_last().update(i, t));
        assert(s.update(i, t).last() == s.last());
        lemma_count_update(s.drop_last(), i, t, p);
    }
}

/// Removing the entry at `i` subtracts its contribution from the count.
pub proof fn lemma_count_remove(s: Seq<Tile>, i: int, p: spec_fn(Tile) -> bool)
    requires
        0 <= i < s.len(),
    ensures
        count_tiles(s, p) == count_tiles(s.remove(i), p) + if p(s[i]) {
            1nat
        } else {
            0nat
        },
    decreases s.len(),
{
    if i == s.len() - 1 {
        assert(s.remove(i) =~= s.drop_last());
    } else {
        assert(s.remove(i).drop_last() =~= s.drop_last().remove(i));
        assert(s.remove(i).last() == s.last());
        lemma_count_remove(s.drop_last(), i, p);
    }
}

/// Two sequences holding the same entries, each the same number of times,
/// have the same count: the count survives any permutation.
pub proof fn lemma_count_multiset(s1: Seq<Tile>, s2: Seq<Tile>, p: spec_fn(Tile) -> bool)
    requires
        s1.to_multiset() == s2.to_multiset(),
    ensures
        count_tiles(s1, p) == count_tiles(s2, p),
    decreases s1.len(),
{
    broadcast use vstd::seq_lib::group_to_multiset_ensures;

    if s1.len() == 0 {
        assert(s1.to_multiset().len() == 0);
        assert(s2.to_multiset().len() == s2.len());
        assert(s2.len() == 0);
    } else {
        let a = s1.last();
        assert(s1.contains(a));
        assert(s1.to_multiset().count(a) > 0);
        assert(s2.contains(a));
        let i = choose|i: int| 0 <= i < s2.len() && s2[i] == a;
        assert(s1.drop_last() =~= s1.remove(s1.len() - 1));
        assert(s1.remove(s1.len() - 1).to_multiset() =~= s1.to_multiset().remove(a));
        assert(s2.remove(i).to_multiset() =~= s2.to_multiset().remove(a));
        lemma_count_multiset(s1.drop_last(), s2.remove(i), p);
        lemma_count_remove(s2, i, p);
    }
}

/// Membership in a sequence is decided by its multiset: a property of
/// every entry carries over to any permutation.
pub proof fn lemma_all_entries_multiset(s1: Seq<Tile>, s2: Seq<Tile>, p: spec_fn(Tile) -> bool)
    requires
        s1.to_multiset() == s2.to_multiset(),
        forall|k: int| 0 <= k < s1.len() ==> p(#[trigger] s1[k]),
    ensures
        forall|k: int| 0 <= k < s2.len() ==> p(#[trigger] s2[k]),
{
    broadcast use vstd::seq_lib::group_to_multiset_ensures;

    assert forall|k: int| 0 <= k < s2.len() implies p(#[trigger] s2[k]) by {
        assert(s2.contains(s2[k]));
        assert(s2.to_multiset().count(s2[k]) > 0);
        assert(s1.contains(s2[k]));
        let m = choose|m: int| 0 <= m < s1.len() && s1[m] == s2[k];
        assert(p(s1[m]));
    }
}

} // verus!
