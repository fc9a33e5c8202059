//! The compact, index-based encoding of a solution's voter-to-target
//! assignments.
use vstd::prelude::*;
use crate::snapshot::{
    EDGE_LIMIT, SnapshotStore, Voter, has_voter, is_first_target_index, is_last_voter_index,
};

verus! {

/// The share that stands for the whole of a voter's stake: shares are parts
/// per billion.
pub const ACCURACY: u32 = 1_000_000_000;

/// How one voter's stake is split over targets: pairs of a target identity
/// and a share in parts of `ACCURACY`.
#[derive(Clone, Debug)]
pub struct Assignment {
    pub who: u64,
    pub distribution: Vec<(u64, u32)>,
}

/// One voter of a compact solution: its snapshot index, all but the last of
/// its edges as (target index, share), and the target index of its last edge,
/// whose share is what is left of `ACCURACY`.
#[derive(Clone, Debug)]
pub struct CompactVoter {
    pub voter: u32,
    pub distribution: Vec<(u32, u32)>,
    pub last_target: u32,
}

/// A solution in compact form; its indices refer to the current snapshot.
#[derive(Clone, Debug)]
pub struct CompactSolution {
    pub voters: Vec<CompactVoter>,
}

/// Why an encoding or a decoding failed.
#[derive(Clone, Copy, Debug, PartialEq, Eq, Structural)]
pub enum CodecError {
    /// A voter identity is not in the snapshot.
    UnknownVoter,
    /// A target identity is not in the snapshot.
    UnknownTarget,
    /// A voter has more than `EDGE_LIMIT` edges.
    TooManyEdges,
    /// A voter has no edge at all.
    EmptyDistribution,
    /// An index lies beyond the snapshot's voters or targets.
    IndexOutOfBounds,
    /// The explicit shares of a voter exceed `ACCURACY`.
    ShareOverflow,
}

/// The mathematical content of an `Assignment`.
pub ghost struct AssignmentModel {
    pub who: u64,
    pub distribution: Seq<(u64, u32)>,
}

/// The mathematical content of a `CompactVoter`.
pub ghost struct CompactVoterModel {
    pub voter: u32,
    pub distribution: Seq<(u32, u32)>,
    pub last_target: u32,
}

impl View for Assignment {
    type V = AssignmentModel;

    open spec fn view(&self) -> AssignmentModel {
        AssignmentModel { who: self.who, distribution: self.distribution@ }
    }
}

impl View for CompactVoter {
    type V = CompactVoterModel;

    open spec fn view(&self) -> CompactVoterModel {
        CompactVoterModel {
            voter: self.voter,
            distribution: self.distribution@,
            last_target: self.last_target,
        }
    }
}

impl View for CompactSolution {
    type V = Seq<CompactVoterModel>;

    open spec fn view(&self) -> Seq<CompactVoterModel> {
        self.voters@.map_values(|c: CompactVoter| c@)
    }
}

/// The models of a sequence of assignments.
pub open spec fn assignments_model(s: Seq<Assignment>) -> Seq<AssignmentModel> {
    s.map_values(|a: Assignment| a@)
}

/// The sum of the shares of `d`.
pub open spec fn share_sum<A>(d: Seq<(A, u32)>) -> int
    decreases d.len(),
{
    if d.len() == 0 {
        0
    } else {
        share_sum(d.drop_last()) + d.last().1
    }
}

/// The first error that `f` finds in `s`, going from the front.
pub open spec fn first_error<A>(s: Seq<A>, f: spec_fn(A) -> Option<CodecError>) -> Option<CodecError>
    decreases s.len(),
{
    if s.len() == 0 {
        None
    } else {
        match first_error(s.drop_last(), f) {
            Some(e) => Some(e),
            None => f(s.last()),
        }
    }
}

/// The snapshot index that stands for voter `id`: its last occurrence.
pub open spec fn voter_index_of(voters: Seq<Voter>, id: u64) -> int {
    choose|i: int| is_last_voter_index(voters, id, i)
}

/// The snapshot index that stands for target `id`: its first occurrence.
pub open spec fn target_index_of(targets: Seq<u64>, id: u64) -> int {
    choose|i: int| is_first_target_index(targets, id, i)
}

/// Why the assignment `a` cannot be encoded against `voters` and `targets`,
/// if it cannot.
pub open spec fn assignment_error(voters: Seq<Voter>, targets: Seq<u64>, a: AssignmentModel) -> Option<CodecError> {
    if !has_voter(voters, a.who) {
        Some(CodecError::UnknownVoter)
    } else if a.distribution.len() > EDGE_LIMIT {
        Some(CodecError::TooManyEdges)
    } else if a.distribution.len() == 0 {
        Some(CodecError::EmptyDistribution)
    } else if exists|j: int| 0 <= j < a.distribution.len() && !targets.contains(#[trigger] a.distribution[j].0) {
        Some(CodecError::UnknownTarget)
    } else {
        None
    }
}

/// The first error met when encoding `asg`, if any.
pub open spec fn encode_error(voters: Seq<Voter>, targets: Seq<u64>, asg: Seq<AssignmentModel>) -> Option<CodecError> {
    first_error(asg, |a: AssignmentModel| assignment_error(voters, targets, a))
}

/// The compact form of one assignment.
pub open spec fn encode_voter(voters: Seq<Voter>, targets: Seq<u64>, a: AssignmentModel) -> CompactVoterModel {
    let n = a.distribution.len();
    CompactVoterModel {
        voter: voter_index_of(voters, a.who) as u32,
        distribution: a.distribution.take(n - 1).map_values(
            |e: (u64, u32)| (target_index_of(targets, e.0) as u32, e.1),
        ),
        last_target: target_index_of(targets, a.distribution[n - 1].0) as u32,
    }
}

/// The compact form of `asg`.
pub open spec fn encode_spec(voters: Seq<Voter>, targets: Seq<u64>, asg: Seq<AssignmentModel>) -> Seq<CompactVoterModel> {
    asg.map_values(|a: AssignmentModel| encode_voter(voters, targets, a))
}

/// Why the compact voter `c` is malformed against snapshot sizes `vc` and
/// `tc`, if it is.
pub open spec fn compact_voter_error(vc: nat, tc: nat, c: CompactVoterModel) -> Option<CodecError> {
    if c.voter >= vc {
        Some(CodecError::IndexOutOfBounds)
    } else if c.distribution.len() + 1 > EDGE_LIMIT {
        Some(CodecError::TooManyEdges)
    } else if c.last_target >= tc || exists|j: int| 0 <= j < c.distribution.len() && #[trigger] c.distribution[j].0 >= tc {
        Some(CodecError::IndexOutOfBounds)
    } else if share_sum(c.distribution) > ACCURACY {
        Some(CodecError::ShareOverflow)
    } else {
        None
    }
}

/// The first error met when decoding `cs` against snapshot sizes `vc` and
/// `tc`, if any.
pub open spec fn compact_error(vc: nat, tc: nat, cs: Seq<CompactVoterModel>) -> Option<CodecError> {
    first_error(cs, |c: CompactVoterModel| compact_voter_error(vc, tc, c))
}

/// All edges of a compact voter, the last with its implied share.
pub open spec fn expand(c: CompactVoterModel) -> Seq<(u32, u32)> {
    c.distribution.push((c.last_target, (ACCURACY - share_sum(c.distribution)) as u32))
}

/// The assignment that the compact voter `c` stands for.
pub open spec fn decode_voter(voters: Seq<Voter>, targets: Seq<u64>, c: CompactVoterModel) -> AssignmentModel {
    AssignmentModel {
        who: voters[c.voter as int].id,
        distribution: expand(c).map_values(|e: (u32, u32)| (targets[e.0 as int], e.1)),
    }
}

/// The assignments that the compact solution `cs` stands for.
pub open spec fn decode_spec(voters: Seq<Voter>, targets: Seq<u64>, cs: Seq<CompactVoterModel>) -> Seq<AssignmentModel> {
    cs.map_values(|c: CompactVoterModel| decode_voter(voters, targets, c))
}

proof fn lemma_first_error_prefix<A>(s: Seq<A>, f: spec_fn(A) -> Option<CodecError>, i: int)
    requires
        0 <= i <= s.len(),
        first_error(s.take(i), f) is Some,
    ensures
        first_error(s, f) == first_error(s.take(i), f),
    decreases s.len(),
{
    if i < s.len() {
        assert(s.drop_last().take(i) =~= s.take(i));
        lemma_first_error_prefix(s.drop_last(), f, i);
    } else {
        assert(s.take(i) =~= s);
    }
}

proof fn lemma_first_error_step<A>(s: Seq<A>, f: spec_fn(A) -> Option<CodecError>, i: int)
    requires
        0 <= i < s.len(),
        first_error(s.take(i), f) is None,
    ensures
        first_error(s.take(i + 1), f) == f(s[i]),
{
    assert(s.take(i + 1).drop_last() =~= s.take(i));
}

proof fn lemma_share_sum_step<A>(d: Seq<(A, u32)>, j: int)
    requires
        0 <= j < d.len(),
    ensures
        share_sum(d.take(j + 1)) == share_sum(d.take(j)) + d[j].1,
{
    assert(d.take(j + 1).drop_last() =~= d.take(j));
}

/// Encodes `assignments` against the snapshot that `store` holds.
///
/// Each voter and target identity becomes its snapshot index, and the share
/// of each voter's last edge is left out. Fails on the first assignment, in
/// order, whose voter is unknown, that has more than `EDGE_LIMIT` edges or
/// none, or that names an unknown target.
pub fn encode(assignments: &Vec<Assignment>, store: &SnapshotStore) -> (r: Result<CompactSolution, CodecError>)
    requires
        store.wf(),
    ensures
        match r {
            Ok(c) => encode_error(store.voters(), store.targets(), assignments_model(assignments@)) is None
                && c@ == encode_spec(store.voters(), store.targets(), assignments_model(assignments@)),
            Err(e) => encode_error(store.voters(), store.targets(), assignments_model(assignments@)) == Some(e),
        },
{
    let ghost vs = store.voters();
    let ghost ts = store.targets();
    let ghost model = assignments_model(assignments@);
    let ghost f = |a: AssignmentModel| assignment_error(vs, ts, a);
    let mut out: Vec<CompactVoter> = Vec::new();
    let mut i: usize = 0;
    while i < assignments.len()
        invariant
            store.wf(),
            vs == store.voters(),
            ts == store.targets(),
            model == assignments_model(assignments@),
            f == (|a: AssignmentModel| assignment_error(vs, ts, a)),
            i <= assignments.len(),
            first_error(model.take(i as int), f) is None,
            out@.len() == i,
            forall|k: int| 0 <= k < i ==> (#[trigger] out@[k])@ == encode_voter(vs, ts, model[k]),
        decreases assignments.len() - i,
    {
        let a = &assignments[i];
        proof {
            lemma_first_error_step(model, f, i as int);
            assert(model[i as int] == a@);
        }
        let vi = match store.voter_index(a.who) {
            Some(x) => x,
            None => {
                proof { lemma_first_error_prefix(model, f, i + 1); }
                return Err(CodecError::UnknownVoter);
            },
        };
        let n = a.distribution.len();
        if n > EDGE_LIMIT {
            proof { lemma_first_error_prefix(model, f, i + 1); }
            return Err(CodecError::TooManyEdges);
        }
        if n == 0 {
            proof { lemma_first_error_prefix(model, f, i + 1); }
            return Err(CodecError::EmptyDistribution);
        }
        let mut dist: Vec<(u32, u32)> = Vec::new();
        let mut last: u32 = 0;
        let mut j: usize = 0;
        while j < n
            invariant
                store.wf(),
                vs == store.voters(),
                ts == store.targets(),
                i < model.len(),
                model == assignments_model(assignments@),
                f == (|a: AssignmentModel| assignment_error(vs, ts, a)),
                first_error(model.take(i + 1), f) == assignment_error(vs, ts, a@),
                has_voter(vs, a.who),
                n == a.distribution@.len(),
                1 <= n <= EDGE_LIMIT,
                j <= n,
                forall|k: int| 0 <= k < j ==> ts.contains(#[trigger] a.distribution@[k].0),
                dist@.len() == if j < n { j as int } else { n - 1 },
                forall|k: int| 0 <= k < dist@.len() ==> (#[trigger] dist@[k]) == (
                    target_index_of(ts, a.distribution@[k].0) as u32,
                    a.distribution@[k].1,
                ),
                j == n ==> last == target_index_of(ts, a.distribution@[n - 1].0) as u32,
            decreases n - j,
        {
            let (t, share) = a.distribution[j];
            let ti = match store.target_index(t) {
                Some(x) => x,
                None => {
                    proof {
                        assert(!ts.contains(a.distribution@[j as int].0));
                        lemma_first_error_prefix(model, f, i + 1);
                    }
                    return Err(CodecError::UnknownTarget);
                },
            };
            proof {
                assert(is_first_target_index(ts, t, ti as int));
                assert(target_index_of(ts, t) == ti as int) by {
                    let c = target_index_of(ts, t);
                    assert(is_first_target_index(ts, t, c));
                    if c < ti { assert(ts[c] == t); }
                    if ti < c { assert(ts[ti as int] == t); }
                }
            }
            if j + 1 < n {
                dist.push((ti, share));
            } else {
                last = ti;
            }
            j = j + 1;
        }
        proof {
            assert(is_last_voter_index(vs, a.who, vi as int));
            assert(voter_index_of(vs, a.who) == vi as int) by {
                let c = voter_index_of(vs, a.who);
                assert(is_last_voter_index(vs, a.who, c));
                if c < vi { assert(vs[vi as int].id == a.who); }
                if vi < c { assert(vs[c].id == a.who); }
            }
            assert(assignment_error(vs, ts, a@) is None);
            assert(dist@ =~= a.distribution@.take(n - 1).map_values(
                |e: (u64, u32)| (target_index_of(ts, e.0) as u32, e.1),
            ));
        }
        out.push(CompactVoter { voter: vi, distribution: dist, last_target: last });
        i = i + 1;
    }
    proof {
        assert(model.take(i as int) =~= model);
    }
    let r = CompactSolution { voters: out };
    assert(r@ =~= encode_spec(vs, ts, model));
    Ok(r)
}

/// Checks that `compact` is well formed against a snapshot of `voter_count`
/// voters and `target_count` targets.
///
/// Fails on the first compact voter, in order, whose voter index is out of
/// bounds, that has more than `EDGE_LIMIT` edges, that has a target index out
/// of bounds, or whose explicit shares exceed `ACCURACY`.
pub fn validate(compact: &CompactSolution, voter_count: u32, target_count: u32) -> (r: Result<(), CodecError>)
    ensures
        match r {
            Ok(()) => compact_error(voter_count as nat, target_count as nat, compact@) is None,
            Err(e) => compact_error(voter_count as nat, target_count as nat, compact@) == Some(e),
        },
{
    let ghost model = compact@;
    let ghost f = |c: CompactVoterModel| compact_voter_error(voter_count as nat, target_count as nat, c);
    let mut i: usize = 0;
    while i < compact.voters.len()
        invariant
            model == compact@,
            f == (|c: CompactVoterModel| compact_voter_error(voter_count as nat, target_count as nat, c)),
            i <= compact.voters.len(),
            first_error(model.take(i as int), f) is None,
        decreases compact.voters.len() - i,
    {
        let c = &compact.voters[i];
        proof {
            lemma_first_error_step(model, f, i as int);
            assert(model[i as int] == c@);
        }
        if c.voter >= voter_count {
            proof { lemma_first_error_prefix(model, f, i + 1); }
            return Err(CodecError::IndexOutOfBounds);
        }
        let n = c.distribution.len();
        if n >= EDGE_LIMIT {
            proof { lemma_first_error_prefix(model, f, i + 1); }
            return Err(CodecError::TooManyEdges);
        }
        if c.last_target >= target_count {
            proof { lemma_first_error_prefix(model, f, i + 1); }
            return Err(CodecError::IndexOutOfBounds);
        }
        let mut sum: u64 = 0;
        let mut j: usize = 0;
        while j < n
            invariant
                model == compact@,
                f == (|c: CompactVoterModel| compact_voter_error(voter_count as nat, target_count as nat, c)),
                i < model.len(),
                first_error(model.take(i + 1), f) == compact_voter_error(voter_count as nat, target_count as nat, c@),
                c.voter < voter_count,
                c.last_target < target_count,
                n == c.distribution@.len(),
                n < EDGE_LIMIT,
                j <= n,
                forall|k: int| 0 <= k < j ==> (#[trigger] c.distribution@[k]).0 < target_count,
                sum == share_sum(c.distribution@.take(j as int)),
                sum <= j * (u32::MAX as int),
            decreases n - j,
        {
            let (t, share) = c.distribution[j];
            if t >= target_count {
                proof {
                    assert(c.distribution@[j as int].0 >= target_count);
                    lemma_first_error_prefix(model, f, i + 1);
                }
                return Err(CodecError::IndexOutOfBounds);
            }
            proof { lemma_share_sum_step(c.distribution@, j as int); }
            sum = sum + share as u64;
            j = j + 1;
        }
        proof { assert(c.distribution@.take(n as int) =~= c.distribution@); }
        if sum > ACCURACY as u64 {
            proof { lemma_first_error_prefix(model, f, i + 1); }
            return Err(CodecError::ShareOverflow);
        }
        i = i + 1;
    }
    proof { assert(model.take(i as int) =~= model); }
    Ok(())
}

proof fn lemma_no_error_each<A>(s: Seq<A>, f: spec_fn(A) -> Option<CodecError>, i: int)
    requires
        first_error(s, f) is None,
        0 <= i < s.len(),
    ensures
        f(s[i]) is None,
    decreases s.len(),
{
    if i < s.len() - 1 {
        lemma_no_error_each(s.drop_last(), f, i);
    }
}

/// Whether no element of `s` has an error under `f`, the same as
/// `first_error(s, f) is None`.
pub proof fn lemma_no_error_iff<A>(s: Seq<A>, f: spec_fn(A) -> Option<CodecError>)
    ensures
        first_error(s, f) is None <==> forall|i: int| 0 <= i < s.len() ==> (#[trigger] f(s[i])) is None,
    decreases s.len(),
{
    if s.len() > 0 {
        lemma_no_error_iff(s.drop_last(), f);
        if first_error(s, f) is None {
            assert forall|i: int| 0 <= i < s.len() implies (#[trigger] f(s[i])) is None by {
                lemma_no_error_each(s, f, i);
            }
        } else {
            if first_error(s.drop_last(), f) is Some {
                let i = choose|i: int| 0 <= i < s.drop_last().len() && (#[trigger] f(s.drop_last()[i])) is Some;
                assert(f(s[i]) is Some);
            } else {
                assert(f(s[s.len() - 1]) is Some);
            }
        }
    }
}

/// Decodes `compact` into assignments against the snapshot that `store`
/// holds.
///
/// Fails as `validate` does against the snapshot's sizes; with no snapshot
/// held, every voter index is out of bounds.
pub fn decode(compact: &CompactSolution, store: &SnapshotStore) -> (r: Result<Vec<Assignment>, CodecError>)
    requires
        store.wf(),
    ensures
        match r {
            Ok(a) => compact_error(store.voters().len(), store.targets().len(), compact@) is None
                && assignments_model(a@) == decode_spec(store.voters(), store.targets(), compact@),
            Err(e) => compact_error(store.voters().len(), store.targets().len(), compact@) == Some(e),
        },
{
    let (vc, tc) = match store.metadata() {
        Some(m) => (m.voter_count, m.target_count),
        None => (0u32, 0u32),
    };
    proof { store.lemma_sizes(); }
    match validate(compact, vc, tc) {
        Err(e) => { return Err(e); },
        Ok(()) => {},
    }
    let ghost vs = store.voters();
    let ghost ts = store.targets();
    let ghost model = compact@;
    let ghost f = |c: CompactVoterModel| compact_voter_error(vs.len(), ts.len(), c);
    proof {
        assert(vc as nat == vs.len() && tc as nat == ts.len());
        assert(first_error(model, f) is None);
        lemma_no_error_iff(model, f);
        assert forall|k: int| 0 <= k < model.len() implies (#[trigger] compact_voter_error(
            vs.len(),
            ts.len(),
            model[k],
        )) is None by {
            assert(f(model[k]) is None);
        }
    }
    let mut out: Vec<Assignment> = Vec::new();
    let mut i: usize = 0;
    while i < compact.voters.len()
        invariant
            store.wf(),
            vs == store.voters(),
            ts == store.targets(),
            model == compact@,
            forall|k: int| 0 <= k < model.len() ==> (#[trigger] compact_voter_error(vs.len(), ts.len(), model[k])) is None,
            i <= compact.voters.len(),
            out@.len() == i,
            forall|k: int| 0 <= k < i ==> (#[trigger] out@[k])@ == decode_voter(vs, ts, model[k]),
        decreases compact.voters.len() - i,
    {
        let c = &compact.voters[i];
        proof {
            assert(model[i as int] == c@);
            assert(compact_voter_error(vs.len(), ts.len(), model[i as int]) is None);
        }
        let who = store.voter_at(c.voter).unwrap();
        let n = c.distribution.len();
        let mut dist: Vec<(u64, u32)> = Vec::new();
        let mut sum: u32 = 0;
        let mut j: usize = 0;
        while j < n
            invariant
                store.wf(),
                ts == store.targets(),
                n == c.distribution@.len(),
                compact_voter_error(vs.len(), ts.len(), c@) is None,
                j <= n,
                sum == share_sum(c.distribution@.take(j as int)),
                dist@.len() == j,
                forall|k: int| 0 <= k < j ==> (#[trigger] dist@[k]) == (ts[c.distribution@[k].0 as int], c.distribution@[k].1),
            decreases n - j,
        {
            let (t, share) = c.distribution[j];
            proof {
                assert(c.distribution@[j as int].0 < ts.len());
                lemma_share_sum_step(c.distribution@, j as int);
                lemma_share_sum_prefix_bound(c.distribution@, j + 1);
            }
            let tid = store.target_at(t).unwrap();
            dist.push((tid, share));
            sum = sum + share;
            j = j + 1;
        }
        proof { assert(c.distribution@.take(n as int) =~= c.distribution@); }
        let last = store.target_at(c.last_target).unwrap();
        dist.push((last, ACCURACY - sum));
        proof {
            assert(dist@ =~= expand(c@).map_values(|e: (u32, u32)| (ts[e.0 as int], e.1)));
        }
        out.push(Assignment { who, distribution: dist });
        i = i + 1;
    }
    assert(assignments_model(out@) =~= decode_spec(vs, ts, model));
    Ok(out)
}

pub(crate) proof fn lemma_share_sum_prefix_bound<A>(d: Seq<(A, u32)>, j: int)
    requires
        0 <= j <= d.len(),
    ensures
        share_sum(d.take(j)) <= share_sum(d),
    decreases d.len(),
{
    if j < d.len() {
        assert(d.drop_last().take(j) =~= d.take(j));
        lemma_share_sum_prefix_bound(d.drop_last(), j);
    } else {
        assert(d.take(j) =~= d);
    }
}

proof fn lemma_last_voter_exists(voters: Seq<Voter>, id: u64)
    requires
        has_voter(voters, id),
    ensures
        is_last_voter_index(voters, id, voter_index_of(voters, id)),
    decreases voters.len(),
{
    if voters.last().id == id {
        assert(is_last_voter_index(voters, id, voters.len() - 1));
    } else {
        let k = choose|k: int| 0 <= k < voters.len() && (#[trigger] voters[k]).id == id;
        assert(voters.drop_last()[k].id == id);
        lemma_last_voter_exists(voters.drop_last(), id);
        let i = voter_index_of(voters.drop_last(), id);
        assert(voters.drop_last()[i] == voters[i]);
        assert forall|k: int| i < k < voters.len() implies (#[trigger] voters[k]).id != id by {
            if k < voters.len() - 1 {
                assert(voters.drop_last()[k] == voters[k]);
            }
        }
        assert(is_last_voter_index(voters, id, i));
    }
}

proof fn lemma_first_target_exists(targets: Seq<u64>, id: u64)
    requires
        targets.contains(id),
    ensures
        is_first_target_index(targets, id, target_index_of(targets, id)),
    decreases targets.len(),
{
    if targets.drop_last().contains(id) {
        lemma_first_target_exists(targets.drop_last(), id);
        let i = target_index_of(targets.drop_last(), id);
        assert(targets.drop_last()[i] == targets[i]);
        assert forall|k: int| 0 <= k < i implies targets[k] != id by {
            assert(targets.drop_last()[k] == targets[k]);
        }
        assert(is_first_target_index(targets, id, i));
    } else {
        let k = choose|k: int| 0 <= k < targets.len() && targets[k] == id;
        assert forall|j: int| 0 <= j < targets.len() - 1 implies targets[j] != id by {
            if targets[j] == id {
                assert(targets.drop_last()[j] == id);
            }
        }
        assert(is_first_target_index(targets, id, targets.len() - 1));
    }
}

proof fn lemma_share_sum_same<A, B>(d1: Seq<(A, u32)>, d2: Seq<(B, u32)>)
    requires
        d1.len() == d2.len(),
        forall|k: int| 0 <= k < d1.len() ==> (#[trigger] d1[k]).1 == d2[k].1,
    ensures
        share_sum(d1) == share_sum(d2),
    decreases d1.len(),
{
    if d1.len() > 0 {
        lemma_share_sum_same(d1.drop_last(), d2.drop_last());
    }
}

/// Decoding the encoding of assignments gives them back, for assignments
/// whose voters and targets are in the snapshot, that have between one and
/// `EDGE_LIMIT` edges each, and whose shares sum to exactly `ACCURACY`.
pub proof fn lemma_round_trip(store: SnapshotStore, asg: Seq<AssignmentModel>)
    requires
        store.wf(),
        forall|i: int| 0 <= i < asg.len() ==> has_voter(store.voters(), (#[trigger] asg[i]).who),
        forall|i: int| 0 <= i < asg.len() ==> 1 <= (#[trigger] asg[i]).distribution.len() <= EDGE_LIMIT,
        forall|i: int, j: int| 0 <= i < asg.len() && 0 <= j < asg[i].distribution.len() ==> store.targets().contains(
            (#[trigger] asg[i].distribution[j]).0,
        ),
        forall|i: int| 0 <= i < asg.len() ==> share_sum((#[trigger] asg[i]).distribution) == ACCURACY,
    ensures
        encode_error(store.voters(), store.targets(), asg) is None,
        compact_error(
            store.voters().len(),
            store.targets().len(),
            encode_spec(store.voters(), store.targets(), asg),
        ) is None,
        decode_spec(store.voters(), store.targets(), encode_spec(store.voters(), store.targets(), asg)) == asg,
{
    let vs = store.voters();
    let ts = store.targets();
    let enc = encode_spec(vs, ts, asg);
    let fe = |a: AssignmentModel| assignment_error(vs, ts, a);
    let fd = |c: CompactVoterModel| compact_voter_error(vs.len(), ts.len(), c);
    store.lemma_sizes();
    assert forall|i: int| 0 <= i < asg.len() implies (#[trigger] fe(asg[i])) is None && fd(enc[i]) is None
        && decode_voter(vs, ts, enc[i]) == asg[i] by {
        let a = asg[i];
        let d = a.distribution;
        let n = d.len();
        assert(forall|j: int| 0 <= j < n ==> ts.contains(#[trigger] d[j].0)) by {
            assert forall|j: int| 0 <= j < n implies ts.contains(#[trigger] d[j].0) by {
                assert(ts.contains(asg[i].distribution[j].0));
            }
        }
        assert(assignment_error(vs, ts, a) is None);
        let c = encode_voter(vs, ts, a);
        assert(enc[i] == c);
        lemma_last_voter_exists(vs, a.who);
        assert forall|j: int| 0 <= j < n implies is_first_target_index(
            ts,
            (#[trigger] d[j]).0,
            target_index_of(ts, d[j].0),
        ) by {
            lemma_first_target_exists(ts, d[j].0);
        }
        assert(d.take(n - 1) =~= d.drop_last());
        lemma_share_sum_same(c.distribution, d.drop_last());
        assert(share_sum(c.distribution) == ACCURACY - d[n - 1].1);
        assert(forall|j: int| 0 <= j < c.distribution.len() ==> (#[trigger] c.distribution[j]).0 < ts.len()) by {
            assert forall|j: int| 0 <= j < c.distribution.len() implies (#[trigger] c.distribution[j]).0 < ts.len() by {
                assert(is_first_target_index(ts, d[j].0, target_index_of(ts, d[j].0)));
            }
        }
        assert(is_first_target_index(ts, d[n - 1].0, target_index_of(ts, d[n - 1].0)));
        assert(compact_voter_error(vs.len(), ts.len(), c) is None);
        let back = decode_voter(vs, ts, c);
        assert(back.distribution =~= d);
        assert(back.who == a.who);
    }
    assert forall|i: int| 0 <= i < enc.len() implies (#[trigger] fd(enc[i])) is None
        && decode_spec(vs, ts, enc)[i] == asg[i] by {
        assert(fe(asg[i]) is None);
    }
    lemma_no_error_iff(asg, fe);
    lemma_no_error_iff(enc, fd);
    let dec = decode_spec(vs, ts, enc);
    assert forall|i: int| 0 <= i < asg.len() implies #[trigger] dec[i] == asg[i] by {
        assert(fe(asg[i]) is None);
    }
    assert(dec =~= asg);
}

} // verus!
