//! Ranking things by how often they were counted.

use vstd::prelude::*;

verus! {

/// The place in a ranking that something with a count goes to: before the first that has a lower
/// count.
pub open spec fn rank_of<T>(ranking: Seq<(T, u64)>, count: u64) -> int
    decreases ranking.len(),
{
    if ranking.len() == 0 || ranking[0].1 < count {
        0
    } else {
        1 + rank_of(ranking.skip(1), count)
    }
}

/// Things ordered by their counts, the highest first. Things with the same count keep their order.
pub open spec fn ranked<T>(things: Seq<(T, u64)>) -> Seq<(T, u64)>
    decreases things.len(),
{
    if things.len() == 0 {
        things
    } else {
        let before = ranked(things.drop_last());
        before.insert(rank_of(before, things.last().1), things.last())
    }
}

/// All before the place have at least the count, and the one at the place has less.
pub proof fn lemma_rank_of<T>(ranking: Seq<(T, u64)>, count: u64)
    ensures
        0 <= rank_of(ranking, count) <= ranking.len(),
        forall|i: int|
            0 <= i < rank_of(ranking, count) ==> (#[trigger] ranking[i]).1 >= count,
        rank_of(ranking, count) < ranking.len() ==> ranking[rank_of(ranking, count)].1 < count,
    decreases ranking.len(),
{
    if ranking.len() > 0 && ranking[0].1 >= count {
        let rest = ranking.skip(1);
        lemma_rank_of(rest, count);
        assert forall|i: int| 0 <= i < rank_of(ranking, count) implies (#[trigger] ranking[i]).1
            >= count by {
            if i > 0 {
                assert(rest[i - 1] == ranking[i]);
            }
        }
    }
}

/// A place is the one whose neighbours say so.
proof fn lemma_rank_is<T>(ranking: Seq<(T, u64)>, count: u64, at: int)
    requires
        0 <= at <= ranking.len(),
        forall|i: int| 0 <= i < at ==> (#[trigger] ranking[i]).1 >= count,
        at < ranking.len() ==> ranking[at].1 < count,
    ensures
        rank_of(ranking, count) == at,
{
    lemma_rank_of(ranking, count);
    let found = rank_of(ranking, count);
    if found < at {
        assert(ranking[found].1 >= count);
    }
    if at < found {
        assert(ranking[at].1 >= count);
    }
}

/// A ranking holds the same things, the highest counts first.
pub proof fn a_ranking_is_ordered<T>(things: Seq<(T, u64)>)
    ensures
        ranked(things).to_multiset() == things.to_multiset(),
        ranked(things).len() == things.len(),
        forall|i: int, j: int|
            0 <= i <= j < ranked(things).len() ==> (#[trigger] ranked(things)[i]).1 >= (
            #[trigger] ranked(things)[j]).1,
    decreases things.len(),
{
    broadcast use vstd::seq_lib::group_to_multiset_ensures;

    if things.len() > 0 {
        let rest = things.drop_last();
        let last = things.last();
        a_ranking_is_ordered(rest);
        let before = ranked(rest);
        let at = rank_of(before, last.1);
        lemma_rank_of(before, last.1);
        let all = ranked(things);
        assert(all == before.insert(at, last));
        assert(things == rest.push(last));
        assert(all.to_multiset() =~= before.to_multiset().insert(last)) by {
            vstd::seq_lib::to_multiset_insert(before, at, last);
        }
        assert forall|i: int, j: int| 0 <= i <= j < all.len() implies (#[trigger] all[i]).1 >= (
        #[trigger] all[j]).1 by {
            let a = if i < at {
                i
            } else {
                i - 1
            };
            let b = if j < at {
                j
            } else {
                j - 1
            };
            if i != at && j != at {
                assert(all[i] == before[a] && all[j] == before[b]);
            } else if i == at && j > at {
                assert(all[j] == before[b]);
                assert(before[at].1 >= before[b].1);
            } else if j == at && i < at {
                assert(all[i] == before[i]);
            }
        }
    }
}

/// Orders things by their counts, the highest first.
pub fn rank<T>(things: Vec<(T, u64)>) -> (out: Vec<(T, u64)>)
    ensures
        out@ == ranked(things@),
{
    let ghost given = things@;
    let ghost mut taken: int = 0;
    let mut rest = things;
    let mut out: Vec<(T, u64)> = Vec::new();
    assert(given.take(0) == Seq::<(T, u64)>::empty());
    while rest.len() > 0
        invariant
            0 <= taken <= given.len(),
            rest@ == given.skip(taken),
            out@ == ranked(given.take(taken)),
        decreases rest@.len(),
    {
        let ghost waiting = rest@;
        let entry = rest.remove(0);
        let mut at: usize = 0;
        while at < out.len() && out[at].1 >= entry.1
            invariant
                at <= out@.len(),
                forall|i: int| 0 <= i < at ==> (#[trigger] out@[i]).1 >= entry.1,
            decreases out@.len() - at,
        {
            at = at + 1;
        }
        proof {
            lemma_rank_is(out@, entry.1, at as int);
            assert(given.take(taken + 1).drop_last() == given.take(taken));
            assert(given.take(taken + 1).last() == entry);
            taken = taken + 1;
            assert(rest@ =~= given.skip(taken));
        }
        out.insert(at, entry);
    }
    assert(given.take(taken) == given);
    out
}

} // verus!
