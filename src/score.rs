//! Election scores: how a winner set is scored from its backing, and the
//! mixed-direction order in which scores are compared.
use std::cmp::Ordering;
use vstd::prelude::*;

verus! {

/// The score of an election outcome.
///
/// Better scores have a larger `min_backing`, then a larger `total_backing`,
/// then a smaller `sum_squared` (a more even spread of backing).
#[derive(Clone, Copy, Debug, PartialEq, Eq, Structural)]
pub struct ElectionScore {
    pub min_backing: u128,
    pub total_backing: u128,
    pub sum_squared: u128,
}

/// `x` saturated at the largest `u128`.
pub open spec fn sat(x: int) -> int {
    if x > u128::MAX { u128::MAX as int } else { x }
}

/// The smallest backing among `winners`; zero when there are none.
pub open spec fn min_backing_of(winners: Seq<u32>, backing: Seq<u128>) -> int
    decreases winners.len(),
{
    if winners.len() == 0 {
        0
    } else if winners.len() == 1 {
        backing[winners[0] as int] as int
    } else {
        let rest = min_backing_of(winners.drop_last(), backing);
        let b = backing[winners.last() as int] as int;
        if b < rest { b } else { rest }
    }
}

/// The backing of `winners` summed, saturating at the largest `u128`.
pub open spec fn total_backing_of(winners: Seq<u32>, backing: Seq<u128>) -> int
    decreases winners.len(),
{
    if winners.len() == 0 {
        0
    } else {
        sat(total_backing_of(winners.drop_last(), backing) + backing[winners.last() as int])
    }
}

/// The squares of the backing of `winners` summed, each square and each sum
/// saturating at the largest `u128`.
pub open spec fn sum_squared_of(winners: Seq<u32>, backing: Seq<u128>) -> int
    decreases winners.len(),
{
    if winners.len() == 0 {
        0
    } else {
        let b = backing[winners.last() as int] as int;
        sat(sum_squared_of(winners.drop_last(), backing) + sat(b * b))
    }
}

/// The score of the winner set `winners` under the per-target `backing`.
pub open spec fn score_spec(winners: Seq<u32>, backing: Seq<u128>) -> ElectionScore {
    ElectionScore {
        min_backing: min_backing_of(winners, backing) as u128,
        total_backing: total_backing_of(winners, backing) as u128,
        sum_squared: sum_squared_of(winners, backing) as u128,
    }
}

/// How `a` compares with `b`: `Greater` when `a` is the better score.
pub open spec fn score_cmp(a: ElectionScore, b: ElectionScore) -> Ordering {
    if a.min_backing > b.min_backing {
        Ordering::Greater
    } else if a.min_backing < b.min_backing {
        Ordering::Less
    } else if a.total_backing > b.total_backing {
        Ordering::Greater
    } else if a.total_backing < b.total_backing {
        Ordering::Less
    } else if a.sum_squared < b.sum_squared {
        Ordering::Greater
    } else if a.sum_squared > b.sum_squared {
        Ordering::Less
    } else {
        Ordering::Equal
    }
}

/// Whether `a` is at least as good as `b`.
pub open spec fn score_at_least(a: ElectionScore, b: ElectionScore) -> bool {
    score_cmp(a, b) != Ordering::Less
}

/// Whether every winner indexes into `backing`.
pub open spec fn winners_in_range(winners: Seq<u32>, backing: Seq<u128>) -> bool {
    forall|i: int| 0 <= i < winners.len() ==> (#[trigger] winners[i]) < backing.len()
}

/// Scores the winner set `winners` under the per-target `backing`.
pub fn score(winners: &Vec<u32>, backing: &Vec<u128>) -> (r: ElectionScore)
    requires
        winners_in_range(winners@, backing@),
    ensures
        r == score_spec(winners@, backing@),
{
    let mut min: u128 = 0;
    let mut total: u128 = 0;
    let mut sq: u128 = 0;
    let mut i: usize = 0;
    while i < winners.len()
        invariant
            winners_in_range(winners@, backing@),
            i <= winners.len(),
            min == min_backing_of(winners@.take(i as int), backing@),
            total == total_backing_of(winners@.take(i as int), backing@),
            sq == sum_squared_of(winners@.take(i as int), backing@),
        decreases winners.len() - i,
    {
        let ghost prefix = winners@.take(i as int);
        let ghost next = winners@.take(i + 1);
        assert(next.drop_last() =~= prefix);
        let b = backing[winners[i] as usize];
        if i == 0 || b < min {
            min = b;
        }
        total = total.saturating_add(b);
        let b2 = match b.checked_mul(b) {
            Some(x) => x,
            None => u128::MAX,
        };
        sq = sq.saturating_add(b2);
        i = i + 1;
    }
    assert(winners@.take(i as int) =~= winners@);
    ElectionScore { min_backing: min, total_backing: total, sum_squared: sq }
}

/// Compares two scores: `Greater` when `a` is the better one.
///
/// A larger minimum backing wins; on a tie a larger total backing wins; on a
/// further tie the smaller sum of squares wins.
pub fn compare(a: &ElectionScore, b: &ElectionScore) -> (r: Ordering)
    ensures
        r == score_cmp(*a, *b),
{
    if a.min_backing > b.min_backing {
        Ordering::Greater
    } else if a.min_backing < b.min_backing {
        Ordering::Less
    } else if a.total_backing > b.total_backing {
        Ordering::Greater
    } else if a.total_backing < b.total_backing {
        Ordering::Less
    } else if a.sum_squared < b.sum_squared {
        Ordering::Greater
    } else if a.sum_squared > b.sum_squared {
        Ordering::Less
    } else {
        Ordering::Equal
    }
}

/// The score order is a total order: it is antisymmetric, transitive, and
/// calls two scores equal exactly when they are the same score.
pub proof fn lemma_score_order(a: ElectionScore, b: ElectionScore, c: ElectionScore)
    ensures
        score_cmp(a, b) == Ordering::Equal <==> a == b,
        score_cmp(a, b) == Ordering::Greater <==> score_cmp(b, a) == Ordering::Less,
        score_at_least(a, b) || score_at_least(b, a),
        score_at_least(a, b) && score_at_least(b, c) ==> score_at_least(a, c),
        score_cmp(a, b) == Ordering::Greater && score_at_least(b, c) ==> score_cmp(a, c)
            == Ordering::Greater,
        score_at_least(a, b) && score_cmp(b, c) == Ordering::Greater ==> score_cmp(a, c)
            == Ordering::Greater,
{
}

} // verus!
