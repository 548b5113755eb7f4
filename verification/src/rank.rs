//! Ordering candidates: heavier first, then in reading order, then in the
//! order in which they were given.

use vstd::prelude::*;
use vstd::relations::{sorted_by, total_ordering};
use vstd::seq_lib::lemma_sorted_unique;

verus! {

/// What one candidate is ordered by.
#[derive(Debug, Clone, Copy, PartialEq, Eq, Structural)]
pub struct Rank {
    /// Heavier candidates come first.
    pub weight: u64,
    /// Among equal weights, smaller `y` first.
    pub y: i32,
    /// Then smaller `x`.
    pub x: i32,
    /// Position among the candidates, which settles what is left.
    pub index: usize,
}

/// `a` comes no later than `b`.
pub open spec fn rank_le(a: Rank, b: Rank) -> bool {
    ||| a.weight > b.weight
    ||| a.weight == b.weight && (a.y < b.y || (a.y == b.y && (a.x < b.x || (a.x == b.x && a.index
        <= b.index))))
}

/// [`rank_le`] as a relation.
pub open spec fn by_rank() -> spec_fn(Rank, Rank) -> bool {
    |a: Rank, b: Rank| rank_le(a, b)
}

/// The candidates in order.
pub open spec fn ranked(v: Seq<Rank>) -> Seq<Rank> {
    v.sort_by(by_rank())
}

/// The order is total: any two candidates compare, and only a candidate
/// compares both ways with itself.
pub proof fn lemma_rank_order()
    ensures
        total_ordering(by_rank()),
{
}

/// Ordering neither adds nor loses a candidate, and puts each in front of
/// those that come later.
pub proof fn lemma_ranked(v: Seq<Rank>)
    ensures
        ranked(v).len() == v.len(),
        ranked(v).to_multiset() == v.to_multiset(),
        sorted_by(ranked(v), by_rank()),
        forall|r: Rank| ranked(v).contains(r) <==> v.contains(r),
{
    lemma_rank_order();
    v.lemma_sort_by_ensures(by_rank());
    broadcast use vstd::seq_lib::group_to_multiset_ensures;

    assert(v.to_multiset().len() == v.len());
    assert(ranked(v).to_multiset().len() == ranked(v).len());
    assert forall|r: Rank| ranked(v).contains(r) <==> v.contains(r) by {
        assert(ranked(v).contains(r) <==> ranked(v).to_multiset().count(r) > 0);
        assert(v.contains(r) <==> v.to_multiset().count(r) > 0);
    }
}

/// Whether `a` comes no later than `b`.
pub fn comes_first(a: &Rank, b: &Rank) -> (r: bool)
    ensures
        r == rank_le(*a, *b),
{
    a.weight > b.weight || (a.weight == b.weight && (a.y < b.y || (a.y == b.y && (a.x < b.x || (a.x
        == b.x && a.index <= b.index)))))
}

/// Puts the candidates in order.
pub fn sort_ranks(v: &Vec<Rank>) -> (sorted: Vec<Rank>)
    ensures
        sorted@ == ranked(v@),
{
    let mut sorted: Vec<Rank> = Vec::new();
    assert(v@.take(0) =~= sorted@);
    for i in 0..v.len()
        invariant
            sorted@.len() == i,
            sorted_by(sorted@, by_rank()),
            sorted@.to_multiset() == v@.take(i as int).to_multiset(),
    {
        let r = v[i];
        let mut at: usize = sorted.len();
        while at > 0 && !comes_first(&sorted[at - 1], &r)
            invariant
                at <= sorted@.len(),
                sorted_by(sorted@, by_rank()),
                forall|j: int| at <= j < sorted@.len() ==> rank_le(r, #[trigger] sorted@[j]),
            decreases at,
        {
            at = at - 1;
        }
        let ghost before = sorted@;
        sorted.insert(at, r);
        proof {
            assert forall|a: int, b: int| 0 <= a < b < sorted@.len() implies #[trigger] by_rank()(
                sorted@[a],
                sorted@[b],
            ) by {
                if a < at {
                    if b < at {
                        assert(by_rank()(before[a], before[b]));
                    } else if b == at {
                        if a < at - 1 {
                            assert(by_rank()(before[a], before[at - 1]));
                        }
                    } else {
                        assert(by_rank()(before[a], before[b - 1]));
                    }
                } else if a == at {
                    assert(rank_le(r, before[b - 1]));
                } else {
                    assert(by_rank()(before[a - 1], before[b - 1]));
                }
            }
            broadcast use vstd::seq_lib::group_to_multiset_ensures;

            assert(v@.take(i + 1) =~= v@.take(i as int).push(r));
            assert(before.insert(at as int, r).to_multiset() == before.to_multiset().insert(r));
        }
    }
    proof {
        assert(v@.take(v@.len() as int) =~= v@);
        lemma_rank_order();
        v@.lemma_sort_by_ensures(by_rank());
        lemma_sorted_unique(sorted@, ranked(v@), by_rank());
    }
    sorted
}

/// The heavier candidate comes first; among equal weights the upper one, then
/// the one further left, then the one that was given first.
pub proof fn law_rank_order(a: Rank, b: Rank)
    ensures
        a.weight > b.weight ==> rank_le(a, b) && !rank_le(b, a),
        a.weight == b.weight && a.y < b.y ==> rank_le(a, b) && !rank_le(b, a),
        a.weight == b.weight && a.y == b.y && a.x < b.x ==> rank_le(a, b) && !rank_le(b, a),
        a.weight == b.weight && a.y == b.y && a.x == b.x && a.index < b.index ==> rank_le(a, b)
            && !rank_le(b, a),
        rank_le(a, a),
{
}

} // verus!
