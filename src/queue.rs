//! Retention of the best feasible solution of the round.
use std::cmp::Ordering;
use vstd::prelude::*;
use crate::feasibility::{ElectionCompute, FeasibilityError, RawSolution, check, check_spec};
use crate::score::{ElectionScore, compare, lemma_score_order, score_at_least, score_cmp};
use crate::snapshot::SnapshotStore;

verus! {

/// A retained solution and where it came from.
#[derive(Clone, Debug)]
pub struct QueuedSolution {
    pub solution: RawSolution,
    pub compute: ElectionCompute,
}

/// The score retained after a solution scoring `s` is accepted while `cur`
/// was retained: the new one replaces the old only when it is strictly
/// better, whatever its source.
pub open spec fn retain_step(cur: Option<ElectionScore>, s: ElectionScore) -> Option<ElectionScore> {
    match cur {
        None => Some(s),
        Some(c) => if score_cmp(s, c) == Ordering::Greater { Some(s) } else { Some(c) },
    }
}

/// The score retained after solutions scoring `scores` are accepted in
/// turn into an empty queue.
pub open spec fn retained_after(scores: Seq<ElectionScore>) -> Option<ElectionScore>
    decreases scores.len(),
{
    if scores.len() == 0 {
        None
    } else {
        retain_step(retained_after(scores.drop_last()), scores.last())
    }
}

/// The score of a retained solution, if any.
pub open spec fn score_of(q: Option<QueuedSolution>) -> Option<ElectionScore> {
    match q {
        Some(x) => Some(x.solution.score),
        None => None,
    }
}

/// Holds at most one solution: the best accepted in the round so far.
pub struct SolutionQueue {
    queued: Option<QueuedSolution>,
}

impl SolutionQueue {
    /// The solution held, if any.
    pub closed spec fn queued_spec(&self) -> Option<QueuedSolution> {
        self.queued
    }

    /// An empty queue.
    pub fn new() -> (r: SolutionQueue)
        ensures
            r.queued_spec() is None,
    {
        SolutionQueue { queued: None }
    }

    /// The solution held, if any.
    pub fn queued(&self) -> (r: Option<&QueuedSolution>)
        ensures
            r is Some <==> self.queued_spec() is Some,
            r matches Some(q) ==> self.queued_spec() == Some(*q),
    {
        match &self.queued {
            Some(q) => Some(q),
            None => None,
        }
    }

    /// Checks `raw` against the snapshot of round `round` and, when it is
    /// feasible, holds it if the queue is empty or if it scores strictly
    /// better than the solution held. A failed check changes nothing.
    pub fn accept(&mut self, store: &SnapshotStore, round: u32, raw: RawSolution, compute: ElectionCompute) -> (r: Result<(), FeasibilityError>)
        requires
            store.wf(),
        ensures
            match check_spec(*store, round, raw) {
                Err(e) => r == Err::<(), FeasibilityError>(e) && final(self).queued_spec() == old(self).queued_spec(),
                Ok(s) => r is Ok && s == raw.score && final(self).queued_spec() == if old(self).queued_spec() is None
                    || score_cmp(s, old(self).queued_spec().unwrap().solution.score) == Ordering::Greater {
                    Some(QueuedSolution { solution: raw, compute })
                } else {
                    old(self).queued_spec()
                },
            },
            r is Ok ==> score_of(final(self).queued_spec()) == retain_step(score_of(old(self).queued_spec()), raw.score),
    {
        let s = match check(store, round, &raw, compute) {
            Ok(s) => s,
            Err(e) => {
                return Err(e);
            },
        };
        let replace = match &self.queued {
            None => true,
            Some(q) => matches!(compare(&s, &q.solution.score), Ordering::Greater),
        };
        if replace {
            self.queued = Some(QueuedSolution { solution: raw, compute });
        }
        Ok(())
    }

    /// Empties the queue and returns the solution it held, if any.
    pub fn take(&mut self) -> (r: Option<QueuedSolution>)
        ensures
            r == old(self).queued_spec(),
            final(self).queued_spec() is None,
    {
        self.queued.take()
    }
}

/// After any run of accepted solutions, the retained score is at least as
/// good as every one of them.
pub proof fn lemma_retained_is_best(scores: Seq<ElectionScore>)
    requires
        scores.len() > 0,
    ensures
        retained_after(scores) is Some,
        forall|i: int| 0 <= i < scores.len() ==> score_at_least(retained_after(scores).unwrap(), #[trigger] scores[i]),
    decreases scores.len(),
{
    let s = scores.last();
    if scores.len() == 1 {
        lemma_score_order(s, s, s);
    } else {
        let prev = scores.drop_last();
        lemma_retained_is_best(prev);
        let c = retained_after(prev).unwrap();
        let r = retained_after(scores).unwrap();
        assert forall|i: int| 0 <= i < scores.len() implies score_at_least(r, #[trigger] scores[i]) by {
            lemma_score_order(r, c, scores[i]);
            lemma_score_order(s, c, scores[i]);
            lemma_score_order(c, s, scores[i]);
            if i < prev.len() {
                assert(prev[i] == scores[i]);
            }
        }
    }
}

/// Once a solution scoring `scores[a]` has been accepted, no solution scoring
/// `b`, worse than it, is retained, whatever is accepted before or after.
pub proof fn lemma_worse_never_retained(scores: Seq<ElectionScore>, a: int, b: ElectionScore)
    requires
        0 <= a < scores.len(),
        score_cmp(scores[a], b) == Ordering::Greater,
    ensures
        retained_after(scores) != Some(b),
{
    lemma_retained_is_best(scores);
    let r = retained_after(scores).unwrap();
    lemma_score_order(r, scores[a], b);
    lemma_score_order(b, b, b);
}

} // verus!
