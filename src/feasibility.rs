//! Full re-verification of a submitted solution against the snapshot, with
//! its score recomputed from the snapshot's stakes.
use vstd::prelude::*;
use crate::codec::{
    ACCURACY, CodecError, CompactSolution, CompactVoter, CompactVoterModel, compact_error,
    compact_voter_error, expand, first_error, lemma_no_error_iff, lemma_share_sum_prefix_bound,
    share_sum, validate,
};
use crate::score::{ElectionScore, sat, score, score_spec};
use crate::snapshot::{SnapshotStore, Voter};

verus! {

/// Where a solution came from; kept for bookkeeping only.
#[derive(Clone, Copy, Debug, PartialEq, Eq, Structural)]
pub enum ElectionCompute {
    Signed,
    Unsigned,
    OnChain,
}

/// A solution as submitted: the compact assignments, the score the
/// submitter claims for them, and the round they were made for.
#[derive(Clone, Debug)]
pub struct RawSolution {
    pub compact: CompactSolution,
    pub score: ElectionScore,
    pub round: u32,
}

/// Why a solution is not feasible.
#[derive(Clone, Copy, Debug, PartialEq, Eq, Structural)]
pub enum FeasibilityError {
    /// No snapshot is held.
    SnapshotMissing,
    /// The solution was made for another round.
    WrongRound,
    /// The compact solution does not decode against the snapshot.
    MalformedSolution(CodecError),
    /// The solution lists more voters than the snapshot has.
    TooManyVoters,
    /// The solution does not elect exactly the desired number of targets.
    WrongWinnerCount,
    /// The claimed score is not the recomputed one.
    ScoreMismatch,
}

/// Whether some edge of `e` points at target `t`.
pub open spec fn edges_reach(e: Seq<(u32, u32)>, t: u32) -> bool
    decreases e.len(),
{
    e.len() > 0 && (edges_reach(e.drop_last(), t) || e.last().0 == t)
}

/// Whether some edge of the compact solution `cs` points at target `t`.
pub open spec fn referenced(cs: Seq<CompactVoterModel>, t: u32) -> bool
    decreases cs.len(),
{
    cs.len() > 0 && (referenced(cs.drop_last(), t) || edges_reach(expand(cs.last()), t))
}

/// The part of `stake` that a share of `share` parts of `ACCURACY` carries,
/// rounded down.
pub open spec fn stake_part(stake: int, share: int) -> int {
    stake * share / (ACCURACY as int)
}

/// What the edges `e` of a voter with `stake` give target `t`.
pub open spec fn edge_support(stake: int, e: Seq<(u32, u32)>, t: u32) -> int
    decreases e.len(),
{
    if e.len() == 0 {
        0
    } else {
        edge_support(stake, e.drop_last(), t) + if e.last().0 == t {
            stake_part(stake, e.last().1 as int)
        } else {
            0
        }
    }
}

/// The total backing that the compact solution `cs` gives target `t`, each
/// edge carrying its share of its voter's stake.
pub open spec fn raw_backing(voters: Seq<Voter>, cs: Seq<CompactVoterModel>, t: u32) -> int
    decreases cs.len(),
{
    if cs.len() == 0 {
        0
    } else {
        raw_backing(voters, cs.drop_last(), t) + edge_support(
            voters[cs.last().voter as int].stake as int,
            expand(cs.last()),
            t,
        )
    }
}

/// The backing of each of `tc` targets, saturating at the largest `u128`.
pub open spec fn backing_spec(voters: Seq<Voter>, cs: Seq<CompactVoterModel>, tc: nat) -> Seq<u128> {
    Seq::new(tc, |t: int| sat(raw_backing(voters, cs, t as u32)) as u128)
}

/// The indices below `n` that `seen` marks, in increasing order.
pub open spec fn marked(seen: Seq<bool>, n: nat) -> Seq<u32>
    decreases n,
{
    if n == 0 {
        Seq::empty()
    } else if seen[n - 1] {
        marked(seen, (n - 1) as nat).push((n - 1) as u32)
    } else {
        marked(seen, (n - 1) as nat)
    }
}

/// The targets, of `tc`, that the compact solution `cs` elects: those that
/// some edge points at, in increasing order.
pub open spec fn winners_spec(cs: Seq<CompactVoterModel>, tc: nat) -> Seq<u32> {
    marked(Seq::new(tc, |t: int| referenced(cs, t as u32)), tc)
}

/// The outcome of checking `raw` against the snapshot that `store` holds in
/// round `round`: the recomputed score, or the first check that fails.
pub open spec fn check_spec(store: SnapshotStore, round: u32, raw: RawSolution) -> Result<ElectionScore, FeasibilityError> {
    let vs = store.voters();
    let ts = store.targets();
    let cs = raw.compact@;
    if store.snapshot_spec() is None {
        Err(FeasibilityError::SnapshotMissing)
    } else if raw.round != round {
        Err(FeasibilityError::WrongRound)
    } else if compact_error(vs.len(), ts.len(), cs) is Some {
        Err(FeasibilityError::MalformedSolution(compact_error(vs.len(), ts.len(), cs).unwrap()))
    } else if cs.len() > vs.len() {
        Err(FeasibilityError::TooManyVoters)
    } else if winners_spec(cs, ts.len()).len() != store.desired_targets_spec().unwrap() {
        Err(FeasibilityError::WrongWinnerCount)
    } else if score_spec(winners_spec(cs, ts.len()), backing_spec(vs, cs, ts.len())) != raw.score {
        Err(FeasibilityError::ScoreMismatch)
    } else {
        Ok(raw.score)
    }
}

proof fn lemma_take_last<A>(s: Seq<A>, i: int)
    requires
        0 <= i < s.len(),
    ensures
        s.take(i + 1).drop_last() == s.take(i),
        s.take(i + 1).last() == s[i],
{
    assert(s.take(i + 1).drop_last() =~= s.take(i));
}

/// All edges of `c`, its last one with the implied share.
fn expand_voter(c: &CompactVoter) -> (r: Vec<(u32, u32)>)
    requires
        share_sum(c.distribution@) <= ACCURACY,
    ensures
        r@ == expand(c@),
{
    let mut r: Vec<(u32, u32)> = Vec::new();
    let mut sum: u32 = 0;
    let mut j: usize = 0;
    while j < c.distribution.len()
        invariant
            share_sum(c.distribution@) <= ACCURACY,
            j <= c.distribution.len(),
            sum == share_sum(c.distribution@.take(j as int)),
            r@ == c.distribution@.take(j as int),
        decreases c.distribution.len() - j,
    {
        proof {
            lemma_take_last(c.distribution@, j as int);
            lemma_share_sum_prefix_bound(c.distribution@, j + 1);
        }
        sum = sum + c.distribution[j].1;
        r.push(c.distribution[j]);
        j = j + 1;
    }
    proof { assert(c.distribution@.take(j as int) =~= c.distribution@); }
    r.push((c.last_target, ACCURACY - sum));
    r
}

fn stake_share(stake: u64, share: u32) -> (r: u128)
    ensures
        r == stake_part(stake as int, share as int),
{
    let a = stake as u128;
    let b = share as u128;
    assert(a * b <= u64::MAX * u32::MAX) by (nonlinear_arith)
        requires a <= u64::MAX, b <= u32::MAX;
    let p = a * b;
    p / ACCURACY as u128
}

proof fn lemma_expand_in_range(c: CompactVoterModel, vc: nat, tc: nat)
    requires
        compact_voter_error(vc, tc, c) is None,
    ensures
        forall|j: int| 0 <= j < expand(c).len() ==> (#[trigger] expand(c)[j]).0 < tc,
        share_sum(c.distribution) <= ACCURACY,
{
    assert forall|j: int| 0 <= j < expand(c).len() implies (#[trigger] expand(c)[j]).0 < tc by {
        if j < c.distribution.len() {
            assert(expand(c)[j] == c.distribution[j]);
        }
    }
}

/// The backing of every target, and which targets some edge points at.
fn support(store: &SnapshotStore, compact: &CompactSolution) -> (r: (Vec<u128>, Vec<bool>))
    requires
        store.wf(),
        store.snapshot_spec() is Some,
        compact_error(store.voters().len(), store.targets().len(), compact@) is None,
    ensures
        r.0@ == backing_spec(store.voters(), compact@, store.targets().len()),
        r.1@ == Seq::new(store.targets().len(), |t: int| referenced(compact@, t as u32)),
{
    let snap = store.snapshot().unwrap();
    let ghost vs = store.voters();
    let ghost ts = store.targets();
    let ghost cs = compact@;
    let ghost f = |c: CompactVoterModel| compact_voter_error(vs.len(), ts.len(), c);
    proof {
        store.lemma_sizes();
        assert(first_error(cs, f) is None);
        lemma_no_error_iff(cs, f);
    }
    let tc = snap.targets.len();
    let mut backing: Vec<u128> = Vec::new();
    let mut seen: Vec<bool> = Vec::new();
    let mut k: usize = 0;
    while k < tc
        invariant
            k <= tc,
            backing@.len() == k,
            seen@.len() == k,
            forall|t: int| 0 <= t < k ==> backing@[t] == 0 && seen@[t] == false,
        decreases tc - k,
    {
        backing.push(0);
        seen.push(false);
        k = k + 1;
    }
    let mut i: usize = 0;
    while i < compact.voters.len()
        invariant
            vs == snap.voters@,
            ts == snap.targets@,
            tc == ts.len(),
            tc <= u32::MAX,
            cs == compact@,
            forall|k: int| 0 <= k < cs.len() ==> (#[trigger] f(cs[k])) is None,
            f == (|c: CompactVoterModel| compact_voter_error(vs.len(), ts.len(), c)),
            i <= cs.len(),
            backing@.len() == tc,
            seen@.len() == tc,
            forall|t: int| 0 <= t < tc ==> (#[trigger] backing@[t]) == sat(raw_backing(vs, cs.take(i as int), t as u32)),
            forall|t: int| 0 <= t < tc ==> (#[trigger] seen@[t]) == referenced(cs.take(i as int), t as u32),
        decreases cs.len() - i,
    {
        let c = &compact.voters[i];
        proof {
            assert(cs[i as int] == c@);
            assert(f(cs[i as int]) is None);
            lemma_expand_in_range(c@, vs.len(), ts.len());
            lemma_take_last(cs, i as int);
        }
        let stake = snap.voters[c.voter as usize].stake;
        let ex = expand_voter(c);
        let mut j: usize = 0;
        while j < ex.len()
            invariant
                tc == ts.len(),
                tc <= u32::MAX,
                ex@ == expand(c@),
                forall|j: int| 0 <= j < ex@.len() ==> (#[trigger] ex@[j]).0 < tc,
                j <= ex@.len(),
                backing@.len() == tc,
                seen@.len() == tc,
                forall|t: int| 0 <= t < tc ==> (#[trigger] backing@[t]) == sat(
                    raw_backing(vs, cs.take(i as int), t as u32) + edge_support(stake as int, ex@.take(j as int), t as u32),
                ),
                forall|t: int| 0 <= t < tc ==> (#[trigger] seen@[t]) == (referenced(cs.take(i as int), t as u32)
                    || edges_reach(ex@.take(j as int), t as u32)),
            decreases ex.len() - j,
        {
            let (t, share) = ex[j];
            let part = stake_share(stake, share);
            let nb = backing[t as usize].saturating_add(part);
            backing.set(t as usize, nb);
            seen.set(t as usize, true);
            proof {
                lemma_take_last(ex@, j as int);
                assert forall|u: int| 0 <= u < tc implies (#[trigger] backing@[u]) == sat(
                    raw_backing(vs, cs.take(i as int), u as u32) + edge_support(stake as int, ex@.take(j + 1), u as u32),
                ) && seen@[u] == (referenced(cs.take(i as int), u as u32) || edges_reach(ex@.take(j + 1), u as u32)) by {
                    lemma_raw_backing_nonneg(vs, cs.take(i as int));
                    assert(raw_backing(vs, cs.take(i as int), u as u32) >= 0);
                    lemma_edge_support_nonneg(stake as int, ex@.take(j as int), u as u32);
                    assert(stake_part(stake as int, share as int) >= 0) by (nonlinear_arith)
                        requires stake >= 0, share >= 0;
                }
            }
            j = j + 1;
        }
        proof {
            assert(ex@.take(j as int) =~= ex@);
            assert forall|u: int| 0 <= u < tc implies #[trigger] raw_backing(vs, cs.take(i + 1), u as u32) == raw_backing(
                vs,
                cs.take(i as int),
                u as u32,
            ) + edge_support(stake as int, ex@, u as u32) && referenced(cs.take(i + 1), u as u32) == (referenced(
                cs.take(i as int),
                u as u32,
            ) || edges_reach(ex@, u as u32)) by {
                assert(vs[c.voter as int].stake == stake);
            }
        }
        i = i + 1;
    }
    proof {
        assert(cs.take(i as int) =~= cs);
        assert(backing@ =~= backing_spec(vs, cs, tc as nat));
        assert(seen@ =~= Seq::new(tc as nat, |t: int| referenced(cs, t as u32)));
    }
    (backing, seen)
}

proof fn lemma_edge_support_nonneg(stake: int, e: Seq<(u32, u32)>, t: u32)
    requires
        stake >= 0,
    ensures
        edge_support(stake, e, t) >= 0,
    decreases e.len(),
{
    if e.len() > 0 {
        lemma_edge_support_nonneg(stake, e.drop_last(), t);
        assert(stake_part(stake, e.last().1 as int) >= 0) by (nonlinear_arith)
            requires stake >= 0, e.last().1 >= 0;
    }
}

proof fn lemma_raw_backing_nonneg(voters: Seq<Voter>, cs: Seq<CompactVoterModel>)
    ensures
        forall|t: u32| #[trigger] raw_backing(voters, cs, t) >= 0,
    decreases cs.len(),
{
    if cs.len() > 0 {
        lemma_raw_backing_nonneg(voters, cs.drop_last());
        assert forall|t: u32| #[trigger] raw_backing(voters, cs, t) >= 0 by {
            let st = voters[cs.last().voter as int].stake as int;
            lemma_edge_support_nonneg(st, expand(cs.last()), t);
            assert(raw_backing(voters, cs.drop_last(), t) >= 0);
            assert(raw_backing(voters, cs, t) == raw_backing(voters, cs.drop_last(), t) + edge_support(st, expand(cs.last()), t));
        }
    }
}

proof fn lemma_marked_in_range(seen: Seq<bool>, n: nat)
    ensures
        forall|k: int| 0 <= k < marked(seen, n).len() ==> (#[trigger] marked(seen, n)[k]) < n,
    decreases n,
{
    if n > 0 {
        let m = marked(seen, (n - 1) as nat);
        lemma_marked_in_range(seen, (n - 1) as nat);
        assert forall|k: int| 0 <= k < marked(seen, n).len() implies (#[trigger] marked(seen, n)[k]) < n by {
            if k < m.len() {
                assert(marked(seen, n)[k] == m[k]);
            }
        }
    }
}

/// The indices that `seen` marks, in increasing order.
fn marked_indices(seen: &Vec<bool>) -> (r: Vec<u32>)
    requires
        seen@.len() <= u32::MAX,
    ensures
        r@ == marked(seen@, seen@.len()),
{
    let mut r: Vec<u32> = Vec::new();
    let mut k: usize = 0;
    while k < seen.len()
        invariant
            seen@.len() <= u32::MAX,
            k <= seen@.len(),
            r@ == marked(seen@, k as nat),
        decreases seen.len() - k,
    {
        if seen[k] {
            r.push(k as u32);
        }
        k = k + 1;
    }
    r
}

/// Checks `raw` against the snapshot that `store` holds in round `round`,
/// and returns its score, recomputed from the snapshot.
///
/// The checks come in this order: a snapshot is held; the solution is for
/// this round; it decodes against the snapshot; it lists no more voters than
/// the snapshot has; the targets its edges point at are exactly as many as
/// the desired winners; the score recomputed over those winners, with each
/// edge carrying its share of its voter's stake, is the claimed one. Nothing
/// is changed, and the solution's source plays no part in the verdict.
pub fn check(store: &SnapshotStore, round: u32, raw: &RawSolution, _compute: ElectionCompute) -> (r: Result<ElectionScore, FeasibilityError>)
    requires
        store.wf(),
    ensures
        r == check_spec(*store, round, *raw),
{
    proof { store.lemma_sizes(); }
    let (vc, tc, desired) = match (store.metadata(), store.desired_targets()) {
        (Some(m), Some(d)) => (m.voter_count, m.target_count, d),
        _ => {
            return Err(FeasibilityError::SnapshotMissing);
        },
    };
    if raw.round != round {
        return Err(FeasibilityError::WrongRound);
    }
    match validate(&raw.compact, vc, tc) {
        Err(e) => {
            return Err(FeasibilityError::MalformedSolution(e));
        },
        Ok(()) => {},
    }
    if raw.compact.voters.len() > vc as usize {
        return Err(FeasibilityError::TooManyVoters);
    }
    let (backing, seen) = support(store, &raw.compact);
    let winners = marked_indices(&seen);
    if winners.len() != desired as usize {
        return Err(FeasibilityError::WrongWinnerCount);
    }
    proof {
        lemma_marked_in_range(seen@, seen@.len());
    }
    let s = score(&winners, &backing);
    if s != raw.score {
        return Err(FeasibilityError::ScoreMismatch);
    }
    Ok(s)
}

/// A solution whose compact form has a voter index at or beyond the
/// snapshot's voter count, or a target index at or beyond its target count,
/// is rejected.
pub proof fn lemma_rejects_out_of_bounds(store: SnapshotStore, round: u32, raw: RawSolution, i: int)
    requires
        store.wf(),
        0 <= i < raw.compact@.len(),
        raw.compact@[i].voter >= store.voters().len()
            || raw.compact@[i].last_target >= store.targets().len()
            || exists|j: int| 0 <= j < raw.compact@[i].distribution.len()
                && #[trigger] raw.compact@[i].distribution[j].0 >= store.targets().len(),
    ensures
        check_spec(store, round, raw) is Err,
{
    let vs = store.voters();
    let ts = store.targets();
    let cs = raw.compact@;
    let f = |c: CompactVoterModel| compact_voter_error(vs.len(), ts.len(), c);
    assert(f(cs[i]) is Some);
    lemma_no_error_iff(cs, f);
    assert(compact_error(vs.len(), ts.len(), cs) is Some);
}

/// A solution whose edges point at a number of distinct targets other than
/// the desired number of winners is rejected.
pub proof fn lemma_rejects_wrong_winner_count(store: SnapshotStore, round: u32, raw: RawSolution)
    requires
        store.wf(),
        store.snapshot_spec() is Some,
        winners_spec(raw.compact@, store.targets().len()).len() != store.desired_targets_spec().unwrap(),
    ensures
        check_spec(store, round, raw) is Err,
{
}

/// The identities of the targets that `compact` elects: those its edges
/// point at, in snapshot order.
pub fn elected(store: &SnapshotStore, compact: &CompactSolution) -> (r: Vec<u64>)
    requires
        store.wf(),
        store.snapshot_spec() is Some,
        compact_error(store.voters().len(), store.targets().len(), compact@) is None,
    ensures
        r@ == winners_spec(compact@, store.targets().len()).map_values(|t: u32| store.targets()[t as int]),
{
    proof { store.lemma_sizes(); }
    let (_backing, seen) = support(store, compact);
    let winners = marked_indices(&seen);
    proof {
        lemma_marked_in_range(seen@, seen@.len());
        assert(winners@ == winners_spec(compact@, store.targets().len()));
    }
    let ghost ts = store.targets();
    let mut r: Vec<u64> = Vec::new();
    let mut k: usize = 0;
    while k < winners.len()
        invariant
            store.wf(),
            ts == store.targets(),
            k <= winners@.len(),
            forall|j: int| 0 <= j < winners@.len() ==> (#[trigger] winners@[j]) < ts.len(),
            r@.len() == k,
            forall|j: int| 0 <= j < k ==> (#[trigger] r@[j]) == ts[winners@[j] as int],
        decreases winners.len() - k,
    {
        let t = store.target_at(winners[k]).unwrap();
        r.push(t);
        k = k + 1;
    }
    assert(r@ =~= winners@.map_values(|t: u32| ts[t as int]));
    r
}

} // verus!
