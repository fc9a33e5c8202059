//! The round's state machine: snapshot creation, the signed and unsigned
//! submission windows, and finalization.
use vstd::prelude::*;
use crate::codec::compact_error;
use crate::feasibility::{
    ElectionCompute, FeasibilityError, RawSolution, check_spec, elected, winners_spec,
};
use crate::queue::{QueuedSolution, SolutionQueue, retain_step, score_of};
use crate::snapshot::{SnapshotError, SnapshotMetadata, SnapshotStore, Voter, create_error};

verus! {

/// The phase of the current round.
#[derive(Clone, Copy, Debug, PartialEq, Eq, Structural)]
pub enum Phase {
    /// No submission window is open and no snapshot is held.
    Off,
    /// Signed submissions are open since the given step.
    Signed(u32),
    /// Unsigned submissions are open since the given step; the flag says
    /// whether a snapshot was ready when they opened.
    Unsigned(bool, u32),
}

/// What the driver should do at a step.
#[derive(Clone, Copy, Debug, PartialEq, Eq, Structural)]
pub enum Action {
    /// Nothing is due.
    Nothing,
    /// Fetch voters and targets and open the signed window.
    OpenSigned,
    /// Open the unsigned window.
    OpenUnsigned,
    /// Close the round.
    Finalize,
}

/// Submissions or transitions attempted in the wrong phase.
#[derive(Clone, Copy, Debug, PartialEq, Eq, Structural)]
pub enum PhaseError {
    /// No submission window is open.
    PhaseClosed,
    /// The open window does not take solutions of this source.
    WrongSource,
    /// The transition does not start from the current phase.
    WrongPhase,
}

/// Why the data source's voters and targets could not become a snapshot.
#[derive(Clone, Copy, Debug, PartialEq, Eq, Structural)]
pub enum DataSourceError {
    /// There are no voters or no targets.
    Empty,
    /// The snapshot store refused them.
    Rejected(SnapshotError),
}

/// Any failure of the election's operations.
#[derive(Clone, Copy, Debug, PartialEq, Eq, Structural)]
pub enum ElectionError {
    Phase(PhaseError),
    /// The declared solution size is not the snapshot's.
    WitnessMismatch,
    Feasibility(FeasibilityError),
    DataSource(DataSourceError),
    /// The round closed without any feasible solution.
    EmptyRound,
}

/// The size a submitter declares for its solution: the snapshot's voter and
/// target counts.
#[derive(Clone, Copy, Debug, PartialEq, Eq, Structural)]
pub struct SolutionSize {
    pub voters: u32,
    pub targets: u32,
}

/// The outcome of a round that closed with a solution.
#[derive(Clone, Debug)]
pub struct Finalized {
    /// The round that closed.
    pub round: u32,
    /// The identities of the elected targets, in snapshot order.
    pub winners: Vec<u64>,
    /// Where the winning solution came from.
    pub compute: ElectionCompute,
}

/// The action due at step `now` in `phase`, for a round that closes at
/// `deadline` with windows of `signed` and `unsigned` steps.
pub open spec fn action_spec(phase: Phase, now: u32, deadline: u32, signed: u32, unsigned: u32) -> Action {
    match phase {
        Phase::Off => if now < deadline && deadline - now <= signed + unsigned {
            Action::OpenSigned
        } else {
            Action::Nothing
        },
        Phase::Signed(_) => if now >= deadline {
            Action::Finalize
        } else if deadline - now <= unsigned {
            Action::OpenUnsigned
        } else {
            Action::Nothing
        },
        Phase::Unsigned(_, _) => if now >= deadline {
            Action::Finalize
        } else {
            Action::Nothing
        },
    }
}

/// Whether a solution from `compute` may be submitted in `phase`.
pub open spec fn source_allowed(phase: Phase, compute: ElectionCompute) -> bool {
    match phase {
        Phase::Off => false,
        Phase::Signed(_) => compute == ElectionCompute::Signed,
        Phase::Unsigned(_, _) => compute != ElectionCompute::Signed,
    }
}

/// The state of the election: its phase, round, snapshot and best solution.
pub struct ElectionState {
    phase: Phase,
    round: u32,
    snapshot: SnapshotStore,
    queue: SolutionQueue,
    signed_window: u32,
    unsigned_window: u32,
}

impl ElectionState {
    pub closed spec fn phase_spec(&self) -> Phase {
        self.phase
    }

    pub closed spec fn round_spec(&self) -> u32 {
        self.round
    }

    pub closed spec fn store_spec(&self) -> SnapshotStore {
        self.snapshot
    }

    pub closed spec fn queued_spec(&self) -> Option<QueuedSolution> {
        self.queue.queued_spec()
    }

    pub closed spec fn signed_window_spec(&self) -> u32 {
        self.signed_window
    }

    pub closed spec fn unsigned_window_spec(&self) -> u32 {
        self.unsigned_window
    }

    /// A snapshot is held exactly outside `Off`; outside a window nothing is
    /// queued; what is queued is feasible for the snapshot and round held.
    pub closed spec fn wf(&self) -> bool {
        &&& self.snapshot.wf()
        &&& (self.phase == Phase::Off) <==> self.snapshot.snapshot_spec() is None
        &&& self.phase == Phase::Off ==> self.queue.queued_spec() is None
        &&& self.queue.queued_spec() matches Some(q) ==> check_spec(self.snapshot, self.round, q.solution) is Ok
    }

    /// A new election in round 1, `Off`, with the given window lengths.
    pub fn new(signed_window: u32, unsigned_window: u32) -> (r: ElectionState)
        ensures
            r.wf(),
            r.phase_spec() == Phase::Off,
            r.round_spec() == 1,
            r.queued_spec() is None,
            r.signed_window_spec() == signed_window,
            r.unsigned_window_spec() == unsigned_window,
    {
        ElectionState {
            phase: Phase::Off,
            round: 1,
            snapshot: SnapshotStore::new(),
            queue: SolutionQueue::new(),
            signed_window,
            unsigned_window,
        }
    }

    /// The current phase.
    pub fn phase(&self) -> (r: Phase)
        ensures
            r == self.phase_spec(),
    {
        self.phase
    }

    /// The current round.
    pub fn round(&self) -> (r: u32)
        ensures
            r == self.round_spec(),
    {
        self.round
    }

    /// The snapshot store.
    pub fn store(&self) -> (r: &SnapshotStore)
        ensures
            *r == self.store_spec(),
    {
        &self.snapshot
    }

    /// The best solution queued in this round, if any.
    pub fn queued(&self) -> (r: Option<&QueuedSolution>)
        ensures
            r is Some <==> self.queued_spec() is Some,
            r matches Some(q) ==> self.queued_spec() == Some(*q),
    {
        self.queue.queued()
    }

    /// The action due at step `now` for a round that closes at `deadline`.
    ///
    /// From `Off`, the signed window opens once `deadline - now` is at most
    /// the two windows together; from `Signed`, the unsigned window opens
    /// once it is at most the unsigned window; the round is finalized at the
    /// deadline. Any other step is a no-op.
    pub fn next_action(&self, now: u32, deadline: u32) -> (r: Action)
        ensures
            r == action_spec(self.phase_spec(), now, deadline, self.signed_window_spec(), self.unsigned_window_spec()),
    {
        match self.phase {
            Phase::Off => {
                if now < deadline && ((deadline - now) as u64) <= self.signed_window as u64 + self.unsigned_window as u64 {
                    Action::OpenSigned
                } else {
                    Action::Nothing
                }
            },
            Phase::Signed(_) => {
                if now >= deadline {
                    Action::Finalize
                } else if deadline - now <= self.unsigned_window {
                    Action::OpenUnsigned
                } else {
                    Action::Nothing
                }
            },
            Phase::Unsigned(_, _) => {
                if now >= deadline {
                    Action::Finalize
                } else {
                    Action::Nothing
                }
            },
        }
    }

    /// Opens the signed window at step `now` with a snapshot of `voters`,
    /// `targets` and `desired_targets` winners from the data source.
    ///
    /// Fails, changing nothing, outside `Off`, when there are no voters or
    /// no targets, or when the snapshot store refuses them.
    pub fn open_signed(&mut self, now: u32, voters: Vec<Voter>, targets: Vec<u64>, desired_targets: u32) -> (r: Result<(), ElectionError>)
        requires
            old(self).wf(),
        ensures
            final(self).wf(),
            final(self).round_spec() == old(self).round_spec(),
            final(self).signed_window_spec() == old(self).signed_window_spec(),
            final(self).unsigned_window_spec() == old(self).unsigned_window_spec(),
            old(self).phase_spec() != Phase::Off ==> r == Err::<(), ElectionError>(ElectionError::Phase(PhaseError::WrongPhase)),
            old(self).phase_spec() == Phase::Off && (voters@.len() == 0 || targets@.len() == 0) ==> r == Err::<(), ElectionError>(
                ElectionError::DataSource(DataSourceError::Empty),
            ),
            old(self).phase_spec() == Phase::Off && voters@.len() > 0 && targets@.len() > 0 ==> match create_error(voters@, targets@, desired_targets) {
                Some(e) => r == Err::<(), ElectionError>(ElectionError::DataSource(DataSourceError::Rejected(e))),
                None => r is Ok,
            },
            r is Err ==> *final(self) == *old(self),
            r is Ok ==> {
                &&& final(self).phase_spec() == Phase::Signed(now)
                &&& final(self).store_spec().voters() == voters@
                &&& final(self).store_spec().targets() == targets@
                &&& final(self).store_spec().desired_targets_spec() == Some(desired_targets)
                &&& final(self).queued_spec() is None
            },
    {
        if self.phase != Phase::Off {
            return Err(ElectionError::Phase(PhaseError::WrongPhase));
        }
        if voters.len() == 0 || targets.len() == 0 {
            return Err(ElectionError::DataSource(DataSourceError::Empty));
        }
        match self.snapshot.create(voters, targets, desired_targets) {
            Err(e) => Err(ElectionError::DataSource(DataSourceError::Rejected(e))),
            Ok(()) => {
                self.phase = Phase::Signed(now);
                Ok(())
            },
        }
    }

    /// Opens the unsigned window at step `now`; the snapshot made when the
    /// signed window opened is kept. Fails, changing nothing, outside
    /// `Signed`.
    pub fn open_unsigned(&mut self, now: u32) -> (r: Result<(), ElectionError>)
        requires
            old(self).wf(),
        ensures
            final(self).wf(),
            r is Ok <==> old(self).phase_spec() is Signed,
            r is Err ==> *final(self) == *old(self) && r == Err::<(), ElectionError>(ElectionError::Phase(PhaseError::WrongPhase)),
            r is Ok ==> {
                &&& final(self).phase_spec() == Phase::Unsigned(true, now)
                &&& final(self).round_spec() == old(self).round_spec()
                &&& final(self).store_spec() == old(self).store_spec()
                &&& final(self).queued_spec() == old(self).queued_spec()
                &&& final(self).signed_window_spec() == old(self).signed_window_spec()
                &&& final(self).unsigned_window_spec() == old(self).unsigned_window_spec()
            },
    {
        match self.phase {
            Phase::Signed(_) => {
                let ready = self.snapshot.has_snapshot();
                self.phase = Phase::Unsigned(ready, now);
                Ok(())
            },
            _ => Err(ElectionError::Phase(PhaseError::WrongPhase)),
        }
    }

    /// Submits `raw` from `compute`, declaring its size as `witness`.
    ///
    /// Fails, changing nothing: when no window is open; when the open window
    /// does not take this source (the signed window takes only signed
    /// solutions, the unsigned one only unsigned and on-chain ones); when
    /// `witness` is not the snapshot's size; when the solution is not
    /// feasible. A feasible solution is then queued if nothing is, or if it
    /// scores strictly better than the queued one.
    pub fn submit(&mut self, raw: RawSolution, witness: SolutionSize, compute: ElectionCompute) -> (r: Result<(), ElectionError>)
        requires
            old(self).wf(),
        ensures
            final(self).wf(),
            final(self).phase_spec() == old(self).phase_spec(),
            final(self).round_spec() == old(self).round_spec(),
            final(self).store_spec() == old(self).store_spec(),
            final(self).signed_window_spec() == old(self).signed_window_spec(),
            final(self).unsigned_window_spec() == old(self).unsigned_window_spec(),
            old(self).phase_spec() == Phase::Off ==> r == Err::<(), ElectionError>(ElectionError::Phase(PhaseError::PhaseClosed)),
            old(self).phase_spec() != Phase::Off && !source_allowed(old(self).phase_spec(), compute) ==> r == Err::<(), ElectionError>(
                ElectionError::Phase(PhaseError::WrongSource),
            ),
            source_allowed(old(self).phase_spec(), compute) ==> {
                let m = old(self).store_spec().metadata_spec().unwrap();
                if witness.voters != m.voter_count || witness.targets != m.target_count {
                    r == Err::<(), ElectionError>(ElectionError::WitnessMismatch)
                } else {
                    match check_spec(old(self).store_spec(), old(self).round_spec(), raw) {
                        Err(e) => r == Err::<(), ElectionError>(ElectionError::Feasibility(e)),
                        Ok(s) => r is Ok && score_of(final(self).queued_spec()) == retain_step(score_of(old(self).queued_spec()), s),
                    }
                }
            },
            r is Err ==> final(self).queued_spec() == old(self).queued_spec(),
    {
        proof { self.snapshot.lemma_sizes(); }
        let allowed = match self.phase {
            Phase::Off => {
                return Err(ElectionError::Phase(PhaseError::PhaseClosed));
            },
            Phase::Signed(_) => matches!(compute, ElectionCompute::Signed),
            Phase::Unsigned(_, _) => !matches!(compute, ElectionCompute::Signed),
        };
        if !allowed {
            return Err(ElectionError::Phase(PhaseError::WrongSource));
        }
        let m = self.snapshot.metadata().unwrap();
        if witness.voters != m.voter_count || witness.targets != m.target_count {
            return Err(ElectionError::WitnessMismatch);
        }
        match self.queue.accept(&self.snapshot, self.round, raw, compute) {
            Ok(()) => Ok(()),
            Err(e) => Err(ElectionError::Feasibility(e)),
        }
    }

    /// Closes the round: takes the queued solution, clears the snapshot,
    /// returns to `Off` and moves to the next round (the counter stops at
    /// the largest `u32`).
    ///
    /// Returns the closed round's winners, or `EmptyRound` when no solution
    /// was queued. Fails, changing nothing, in `Off`.
    pub fn finalize(&mut self) -> (r: Result<Finalized, ElectionError>)
        requires
            old(self).wf(),
        ensures
            final(self).wf(),
            final(self).signed_window_spec() == old(self).signed_window_spec(),
            final(self).unsigned_window_spec() == old(self).unsigned_window_spec(),
            old(self).phase_spec() == Phase::Off ==> r == Err::<Finalized, ElectionError>(ElectionError::Phase(PhaseError::WrongPhase))
                && *final(self) == *old(self),
            old(self).phase_spec() != Phase::Off ==> {
                &&& final(self).phase_spec() == Phase::Off
                &&& final(self).queued_spec() is None
                &&& final(self).store_spec().snapshot_spec() is None
                &&& final(self).round_spec() == if old(self).round_spec() < u32::MAX {
                    (old(self).round_spec() + 1) as u32
                } else {
                    u32::MAX
                }
                &&& match old(self).queued_spec() {
                    None => r == Err::<Finalized, ElectionError>(ElectionError::EmptyRound),
                    Some(q) => r matches Ok(f) && f.round == old(self).round_spec() && f.compute == q.compute
                        && f.winners@ == winners_spec(q.solution.compact@, old(self).store_spec().targets().len()).map_values(
                            |t: u32| old(self).store_spec().targets()[t as int],
                        ),
                }
            },
    {
        if self.phase == Phase::Off {
            return Err(ElectionError::Phase(PhaseError::WrongPhase));
        }
        let closed = self.round;
        let result = match self.queue.take() {
            None => Err(ElectionError::EmptyRound),
            Some(q) => {
                let winners = elected(&self.snapshot, &q.solution.compact);
                Ok(Finalized { round: closed, winners, compute: q.compute })
            },
        };
        self.snapshot.clear();
        self.phase = Phase::Off;
        self.round = self.round.saturating_add(1);
        result
    }
}

} // verus!
