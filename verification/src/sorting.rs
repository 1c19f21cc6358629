//! In-place insertion sort over a vector of integers. The contract states
//! both the ordering of the result and that sorting only rearranges: the
//! multiset of elements, and hence the length, is invariant.

use vstd::prelude::*;

verus! {

/// The sequence is in nondecreasing order.
pub open spec fn sorted(s: Seq<i64>) -> bool {
    forall|x: int, y: int| #![trigger s[x], s[y]] 0 <= x < y < s.len() ==> s[x] <= s[y]
}

/// Exchanging two entries of a sequence leaves its multiset of elements
/// unchanged.
proof fn lemma_swap_multiset(s: Seq<i64>, a: int, b: int)
    requires
        0 <= a < s.len(),
        0 <= b < s.len(),
    ensures
        s.update(a, s[b]).update(b, s[a]).to_multiset() == s.to_multiset(),
{
    broadcast use vstd::seq_lib::to_multiset_update;
    broadcast use vstd::seq_lib::to_multiset_contains;
    broadcast use vstd::multiset::group_multiset_axioms;
    broadcast use vstd::multiset::group_multiset_properties;

    if a == b {
        assert(s.update(a, s[b]).update(b, s[a]) =~= s);
    } else {
        let s1: Seq<i64> = s.update(a, s[b]);
        assert(s.contains(s[a]));
        assert(s1.contains(s[b])) by {
            assert(s1[a] == s[b]);
        }
        assert(s1.update(b, s[a]).to_multiset() =~= s.to_multiset());
    }
}

/// Exchanges the entries at positions `a` and `b`.
fn swap_entries(v: &mut Vec<i64>, a: usize, b: usize)
    requires
        a < old(v)@.len(),
        b < old(v)@.len(),
    ensures
        final(v)@ == old(v)@.update(a as int, old(v)@[b as int]).update(
            b as int,
            old(v)@[a as int],
        ),
        final(v)@.to_multiset() == old(v)@.to_multiset(),
        final(v)@.len() == old(v)@.len(),
{
    proof {
        lemma_swap_multiset(v@, a as int, b as int);
    }
    let x: i64 = v[a];
    let y: i64 = v[b];
    v[a] = y;
    v[b] = x;
}

/// Sorts the vector in place in nondecreasing order. Sorting is a pure
/// rearrangement: the multiset of elements is unchanged, and in particular
/// the length is invariant.
pub fn sort_values(v: &mut Vec<i64>)
    ensures
        sorted(final(v)@),
        final(v)@.to_multiset() == old(v)@.to_multiset(),
        final(v)@.len() == old(v)@.len(),
{
    if v.len() < 2 {
        return ;
    }
    let mut i: usize = 1;
    while i < v.len()
        invariant
            v@.len() == old(v)@.len(),
            v@.to_multiset() == old(v)@.to_multiset(),
            1 <= i <= v@.len(),
            forall|x: int, y: int| #![trigger v@[x], v@[y]] 0 <= x < y < i ==> v@[x] <= v@[y],
        decreases v@.len() - i,
    {
        let mut j: usize = i;
        while j > 0 && v[j - 1] > v[j]
            invariant
                v@.len() == old(v)@.len(),
                v@.to_multiset() == old(v)@.to_multiset(),
                j <= i < v@.len(),
                forall|x: int, y: int|
                    #![trigger v@[x], v@[y]]
                    0 <= x < y <= i && y != j ==> v@[x] <= v@[y],
                forall|y: int| j < y <= i ==> v@[j as int] <= #[trigger] v@[y],
            decreases j,
        {
            swap_entries(v, j - 1, j);
            j = j - 1;
        }
        proof {
            assert forall|x: int, y: int| 0 <= x < y <= i implies v@[x] <= v@[y] by {
                if y == j && x < j - 1 {
                    assert(v@[x] <= v@[j - 1]);
                }
            }
        }
        i = i + 1;
    }
}

} // verus!
