//! The per-round snapshot of voters and targets, with index lookups.
use std::collections::HashMap;
use vstd::prelude::*;

verus! {

broadcast use vstd::std_specs::hash::group_hash_axioms;

/// The most targets that one voter may nominate, and the most edges that one
/// voter may have in a solution.
pub const EDGE_LIMIT: usize = 16;

/// A voter of the snapshot: its identity, its stake and the targets it
/// nominates.
#[derive(Clone, Debug)]
pub struct Voter {
    pub id: u64,
    pub stake: u64,
    pub targets: Vec<u64>,
}

/// The voters and targets of one round.
#[derive(Clone, Debug)]
pub struct RoundSnapshot {
    pub voters: Vec<Voter>,
    pub targets: Vec<u64>,
}

/// The sizes of the current snapshot.
#[derive(Clone, Copy, Debug, PartialEq, Eq, Structural)]
pub struct SnapshotMetadata {
    pub voter_count: u32,
    pub target_count: u32,
}

/// Why a snapshot could not be created.
#[derive(Clone, Copy, Debug, PartialEq, Eq, Structural)]
pub enum SnapshotError {
    /// More winners are asked for than there are targets.
    DesiredTargetsTooHigh,
    /// A voter nominates more than `EDGE_LIMIT` targets.
    TooManyEdges,
    /// There are more voters or targets than a `u32` index can address.
    TooLarge,
}

/// Whether `i` is the last position in `voters` of a voter with identity `id`.
pub open spec fn is_last_voter_index(voters: Seq<Voter>, id: u64, i: int) -> bool {
    &&& 0 <= i < voters.len()
    &&& voters[i].id == id
    &&& forall|k: int| i < k < voters.len() ==> (#[trigger] voters[k]).id != id
}

/// Whether some voter in `voters` has identity `id`.
pub open spec fn has_voter(voters: Seq<Voter>, id: u64) -> bool {
    exists|k: int| 0 <= k < voters.len() && (#[trigger] voters[k]).id == id
}

/// Whether `i` is the first position in `targets` of `id`.
pub open spec fn is_first_target_index(targets: Seq<u64>, id: u64, i: int) -> bool {
    &&& 0 <= i < targets.len()
    &&& targets[i] == id
    &&& forall|k: int| 0 <= k < i ==> targets[k] != id
}

/// Why `create` rejects the given voters, targets and winner count, if it does.
pub open spec fn create_error(voters: Seq<Voter>, targets: Seq<u64>, desired: u32) -> Option<SnapshotError> {
    if voters.len() > u32::MAX || targets.len() > u32::MAX {
        Some(SnapshotError::TooLarge)
    } else if desired > targets.len() {
        Some(SnapshotError::DesiredTargetsTooHigh)
    } else if exists|k: int| 0 <= k < voters.len() && (#[trigger] voters[k]).targets@.len() > EDGE_LIMIT {
        Some(SnapshotError::TooManyEdges)
    } else {
        None
    }
}

/// Holds the current round's snapshot, its sizes, the number of winners
/// asked for, and a cache from voter identity to voter index.
pub struct SnapshotStore {
    snapshot: Option<RoundSnapshot>,
    metadata: Option<SnapshotMetadata>,
    desired_targets: Option<u32>,
    voter_cache: HashMap<u64, u32>,
}

impl SnapshotStore {
    /// The snapshot held, if any.
    pub closed spec fn snapshot_spec(&self) -> Option<RoundSnapshot> {
        self.snapshot
    }

    /// The sizes held, if any.
    pub closed spec fn metadata_spec(&self) -> Option<SnapshotMetadata> {
        self.metadata
    }

    /// The number of winners asked for, if a snapshot is held.
    pub closed spec fn desired_targets_spec(&self) -> Option<u32> {
        self.desired_targets
    }

    /// The snapshot's voters; empty when none is held.
    pub open spec fn voters(&self) -> Seq<Voter> {
        match self.snapshot_spec() {
            Some(s) => s.voters@,
            None => Seq::empty(),
        }
    }

    /// The snapshot's targets; empty when none is held.
    pub open spec fn targets(&self) -> Seq<u64> {
        match self.snapshot_spec() {
            Some(s) => s.targets@,
            None => Seq::empty(),
        }
    }

    /// The snapshot, its sizes and the winner count are held together, the
    /// sizes are those of the snapshot, and the cache maps each voter
    /// identity to its last index.
    pub closed spec fn wf(&self) -> bool {
        &&& self.snapshot is Some <==> self.metadata is Some
        &&& self.snapshot is Some <==> self.desired_targets is Some
        &&& self.snapshot matches Some(s) ==> {
            let m = self.metadata.unwrap();
            &&& s.voters@.len() == m.voter_count
            &&& s.targets@.len() == m.target_count
            &&& self.desired_targets.unwrap() <= m.target_count
            &&& forall|k: int| 0 <= k < s.voters@.len() ==> (#[trigger] s.voters@[k]).targets@.len() <= EDGE_LIMIT
        }
        &&& forall|id: u64| #[trigger] self.voter_cache@.contains_key(id) <==> has_voter(self.voters(), id)
        &&& forall|id: u64| #[trigger] self.voter_cache@.contains_key(id) ==> is_last_voter_index(
            self.voters(),
            id,
            self.voter_cache@[id] as int,
        )
    }

    /// The sizes held are those of the snapshot; with none held, both
    /// are zero.
    pub proof fn lemma_sizes(&self)
        requires
            self.wf(),
        ensures
            self.voters().len() <= u32::MAX,
            self.targets().len() <= u32::MAX,
            self.snapshot_spec() is Some <==> self.metadata_spec() is Some,
            self.snapshot_spec() is Some <==> self.desired_targets_spec() is Some,
            self.desired_targets_spec() matches Some(d) ==> d <= self.targets().len(),
            match self.metadata_spec() {
                Some(m) => m.voter_count == self.voters().len() && m.target_count == self.targets().len(),
                None => self.voters().len() == 0 && self.targets().len() == 0,
            },
    {
    }

    /// An empty store.
    pub fn new() -> (r: SnapshotStore)
        ensures
            r.wf(),
            r.snapshot_spec() is None,
    {
        SnapshotStore {
            snapshot: None,
            metadata: None,
            desired_targets: None,
            voter_cache: HashMap::new(),
        }
    }

    /// Whether a snapshot is held.
    pub fn has_snapshot(&self) -> (r: bool)
        ensures
            r == self.snapshot_spec() is Some,
    {
        self.snapshot.is_some()
    }

    /// Stores a new snapshot of `voters` and `targets` with `desired_targets`
    /// winners, replacing any earlier one.
    ///
    /// Fails, and leaves the store unchanged, when more winners are asked
    /// for than there are targets, when a voter nominates more than
    /// `EDGE_LIMIT` targets, or when the voters or targets do not fit `u32`
    /// indices.
    pub fn create(&mut self, voters: Vec<Voter>, targets: Vec<u64>, desired_targets: u32) -> (r: Result<(), SnapshotError>)
        requires
            old(self).wf(),
        ensures
            final(self).wf(),
            r matches Err(e) ==> create_error(voters@, targets@, desired_targets) == Some(e) && *final(self) == *old(self),
            r is Ok <==> create_error(voters@, targets@, desired_targets) is None,
            r is Ok ==> {
                &&& final(self).voters() == voters@
                &&& final(self).targets() == targets@
                &&& final(self).metadata_spec() == Some(SnapshotMetadata {
                    voter_count: voters@.len() as u32,
                    target_count: targets@.len() as u32,
                })
                &&& final(self).desired_targets_spec() == Some(desired_targets)
            },
    {
        if voters.len() > u32::MAX as usize || targets.len() > u32::MAX as usize {
            return Err(SnapshotError::TooLarge);
        }
        if desired_targets as usize > targets.len() {
            return Err(SnapshotError::DesiredTargetsTooHigh);
        }
        let mut k: usize = 0;
        while k < voters.len()
            invariant
                *self == *old(self),
                self.wf(),
                voters.len() <= u32::MAX,
                targets.len() <= u32::MAX,
                desired_targets <= targets.len(),
                k <= voters.len(),
                forall|j: int| 0 <= j < k ==> (#[trigger] voters@[j]).targets@.len() <= EDGE_LIMIT,
            decreases voters.len() - k,
        {
            if voters[k].targets.len() > EDGE_LIMIT {
                return Err(SnapshotError::TooManyEdges);
            }
            k = k + 1;
        }
        let mut cache: HashMap<u64, u32> = HashMap::new();
        let mut i: usize = 0;
        while i < voters.len()
            invariant
                i <= voters.len() <= u32::MAX,
                targets.len() <= u32::MAX,
                desired_targets <= targets.len(),
                forall|j: int| 0 <= j < voters.len() ==> (#[trigger] voters@[j]).targets@.len() <= EDGE_LIMIT,
                forall|id: u64| #[trigger] cache@.contains_key(id) <==> has_voter(voters@.take(i as int), id),
                forall|id: u64| #[trigger] cache@.contains_key(id) ==> is_last_voter_index(
                    voters@.take(i as int),
                    id,
                    cache@[id] as int,
                ),
            decreases voters.len() - i,
        {
            let id = voters[i].id;
            cache.insert(id, i as u32);
            proof {
                let before = voters@.take(i as int);
                let after = voters@.take(i + 1);
                assert forall|x: u64| #[trigger] cache@.contains_key(x) <==> has_voter(after, x) by {
                    if has_voter(before, x) {
                        let k = choose|k: int| 0 <= k < before.len() && (#[trigger] before[k]).id == x;
                        assert(after[k].id == x);
                    }
                    if x == id {
                        assert(after[i as int].id == x);
                    }
                    if has_voter(after, x) && x != id {
                        let k = choose|k: int| 0 <= k < after.len() && (#[trigger] after[k]).id == x;
                        assert(before[k].id == x);
                    }
                }
            }
            i = i + 1;
        }
        assert(voters@.take(i as int) =~= voters@);
        let vc = voters.len() as u32;
        let tc = targets.len() as u32;
        self.snapshot = Some(RoundSnapshot { voters, targets });
        self.metadata = Some(SnapshotMetadata { voter_count: vc, target_count: tc });
        self.desired_targets = Some(desired_targets);
        self.voter_cache = cache;
        Ok(())
    }

    /// Drops the snapshot, its sizes, the winner count and the cache.
    pub fn clear(&mut self)
        ensures
            final(self).wf(),
            final(self).snapshot_spec() is None,
    {
        self.snapshot = None;
        self.metadata = None;
        self.desired_targets = None;
        self.voter_cache = HashMap::new();
    }

    /// The snapshot held, if any.
    pub fn snapshot(&self) -> (r: Option<&RoundSnapshot>)
        ensures
            r is Some <==> self.snapshot_spec() is Some,
            r matches Some(s) ==> self.snapshot_spec() == Some(*s),
    {
        match &self.snapshot {
            Some(s) => Some(s),
            None => None,
        }
    }

    /// The sizes of the snapshot held, if any.
    pub fn metadata(&self) -> (r: Option<SnapshotMetadata>)
        ensures
            r == self.metadata_spec(),
    {
        self.metadata
    }

    /// The number of winners asked for, if a snapshot is held.
    pub fn desired_targets(&self) -> (r: Option<u32>)
        ensures
            r == self.desired_targets_spec(),
    {
        self.desired_targets
    }

    /// The index of the voter `id`: the last one, should it occur twice.
    pub fn voter_index(&self, id: u64) -> (r: Option<u32>)
        requires
            self.wf(),
        ensures
            r is None <==> !has_voter(self.voters(), id),
            r matches Some(i) ==> is_last_voter_index(self.voters(), id, i as int),
    {
        match self.voter_cache.get(&id) {
            Some(i) => Some(*i),
            None => None,
        }
    }

    /// The index of the target `id`: the first one, should it occur twice.
    pub fn target_index(&self, id: u64) -> (r: Option<u32>)
        requires
            self.wf(),
        ensures
            r is None <==> !self.targets().contains(id),
            r matches Some(i) ==> is_first_target_index(self.targets(), id, i as int),
    {
        match &self.snapshot {
            None => None,
            Some(s) => {
                let mut i: usize = 0;
                while i < s.targets.len()
                    invariant
                        self.snapshot == Some(*s),
                        s.targets@.len() <= u32::MAX,
                        i <= s.targets.len(),
                        forall|k: int| 0 <= k < i ==> s.targets@[k] != id,
                    decreases s.targets.len() - i,
                {
                    if s.targets[i] == id {
                        return Some(i as u32);
                    }
                    i = i + 1;
                }
                None
            },
        }
    }

    /// The identity of the voter at index `i`, if there is one.
    pub fn voter_at(&self, i: u32) -> (r: Option<u64>)
        ensures
            r == (if i < self.voters().len() { Some(self.voters()[i as int].id) } else { None::<u64> }),
    {
        match &self.snapshot {
            Some(s) if (i as usize) < s.voters.len() => Some(s.voters[i as usize].id),
            _ => None,
        }
    }

    /// The identity of the target at index `i`, if there is one.
    pub fn target_at(&self, i: u32) -> (r: Option<u64>)
        ensures
            r == (if i < self.targets().len() { Some(self.targets()[i as int]) } else { None::<u64> }),
    {
        match &self.snapshot {
            Some(s) if (i as usize) < s.targets.len() => Some(s.targets[i as usize]),
            _ => None,
        }
    }

    /// The stake of the voter `id` (its last occurrence), if it is a voter.
    pub fn stake_of(&self, id: u64) -> (r: Option<u64>)
        requires
            self.wf(),
        ensures
            r is None <==> !has_voter(self.voters(), id),
            r matches Some(st) ==> exists|i: int| is_last_voter_index(self.voters(), id, i) && self.voters()[i].stake == st,
    {
        match self.voter_index(id) {
            Some(i) => {
                let s = self.snapshot.as_ref().unwrap();
                Some(s.voters[i as usize].stake)
            },
            None => None,
        }
    }
}

} // verus!
