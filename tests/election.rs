use multi_phase_election::codec::{
    decode, encode, validate, Assignment, CodecError, CompactSolution, CompactVoter, ACCURACY,
};
use multi_phase_election::feasibility::{
    check, elected, ElectionCompute, FeasibilityError, RawSolution,
};
use multi_phase_election::phase::{
    Action, DataSourceError, ElectionError, ElectionState, Phase, PhaseError, SolutionSize,
};
use multi_phase_election::queue::SolutionQueue;
use multi_phase_election::score::{compare, score, ElectionScore};
use multi_phase_election::snapshot::{SnapshotError, SnapshotMetadata, SnapshotStore, Voter};
use std::cmp::Ordering;

const T1: u64 = 101;
const T2: u64 = 102;
const T3: u64 = 103;
const V1: u64 = 1;
const V2: u64 = 2;

fn pct(p: u32) -> u32 {
    ACCURACY / 100 * p
}

fn example_voters() -> Vec<Voter> {
    vec![
        Voter { id: V1, stake: 100, targets: vec![T1, T2] },
        Voter { id: V2, stake: 50, targets: vec![T1] },
    ]
}

fn example_store() -> SnapshotStore {
    let mut store = SnapshotStore::new();
    store.create(example_voters(), vec![T1, T2, T3], 2).unwrap();
    store
}

fn example_assignments(v1_t1: u32) -> Vec<Assignment> {
    vec![
        Assignment { who: V1, distribution: vec![(T1, pct(v1_t1)), (T2, pct(100 - v1_t1))] },
        Assignment { who: V2, distribution: vec![(T1, pct(100))] },
    ]
}

fn score_of(min: u128, total: u128, sq: u128) -> ElectionScore {
    ElectionScore { min_backing: min, total_backing: total, sum_squared: sq }
}

fn example_solution(store: &SnapshotStore, v1_t1: u32, round: u32) -> RawSolution {
    let compact = encode(&example_assignments(v1_t1), store).unwrap();
    let t1 = (100 * v1_t1 / 100 + 50) as u128;
    let t2 = (100 - v1_t1) as u128;
    let s = score_of(t1.min(t2), t1 + t2, t1 * t1 + t2 * t2);
    RawSolution { compact, score: s, round }
}

#[test]
fn example_score_is_recomputed() {
    let store = example_store();
    let raw = example_solution(&store, 60, 1);
    assert_eq!(raw.score, score_of(40, 150, 13700));
    assert_eq!(check(&store, 1, &raw, ElectionCompute::Signed), Ok(score_of(40, 150, 13700)));
    assert_eq!(elected(&store, &raw.compact), vec![T1, T2]);
}

#[test]
fn score_formula() {
    let backing = vec![110u128, 40, 0];
    assert_eq!(score(&vec![0, 1], &backing), score_of(40, 150, 13700));
    assert_eq!(score(&vec![], &backing), score_of(0, 0, 0));
    let big = vec![u128::MAX, 2];
    assert_eq!(score(&vec![0, 1], &big), score_of(2, u128::MAX, u128::MAX));
}

#[test]
fn compare_prefers_smaller_sum_of_squares() {
    let a = score_of(40, 150, 13000);
    let b = score_of(40, 150, 13700);
    assert_eq!(compare(&a, &b), Ordering::Greater);
    assert_eq!(compare(&b, &a), Ordering::Less);
    assert_eq!(compare(&a, &a), Ordering::Equal);
    assert_eq!(compare(&score_of(41, 0, u128::MAX), &b), Ordering::Greater);
    assert_eq!(compare(&score_of(40, 151, u128::MAX), &b), Ordering::Greater);
}

#[test]
fn better_solution_replaces_worse_is_kept_out() {
    let store = example_store();
    let mut queue = SolutionQueue::new();
    queue.accept(&store, 1, example_solution(&store, 60, 1), ElectionCompute::Signed).unwrap();
    assert_eq!(queue.queued().unwrap().solution.score, score_of(40, 150, 13700));
    // T2 gains backing: its 80 is above 40.
    queue.accept(&store, 1, example_solution(&store, 20, 1), ElectionCompute::Signed).unwrap();
    assert_eq!(queue.queued().unwrap().solution.score, score_of(70, 150, 70 * 70 + 80 * 80));
    // T2 loses backing: feasible, but not retained.
    queue.accept(&store, 1, example_solution(&store, 80, 1), ElectionCompute::Unsigned).unwrap();
    assert_eq!(queue.queued().unwrap().solution.score, score_of(70, 150, 70 * 70 + 80 * 80));
    // The first one, worse than the held one, is not retained either.
    queue.accept(&store, 1, example_solution(&store, 60, 1), ElectionCompute::OnChain).unwrap();
    assert_eq!(queue.queued().unwrap().compute, ElectionCompute::Signed);
    let taken = queue.take().unwrap();
    assert_eq!(taken.solution.score.min_backing, 70);
    assert!(queue.take().is_none());
}

#[test]
fn equal_score_does_not_replace() {
    let store = example_store();
    let mut queue = SolutionQueue::new();
    queue.accept(&store, 1, example_solution(&store, 60, 1), ElectionCompute::Signed).unwrap();
    queue.accept(&store, 1, example_solution(&store, 60, 1), ElectionCompute::Unsigned).unwrap();
    assert_eq!(queue.queued().unwrap().compute, ElectionCompute::Signed);
}

#[test]
fn failed_accept_leaves_queue() {
    let store = example_store();
    let mut queue = SolutionQueue::new();
    queue.accept(&store, 1, example_solution(&store, 60, 1), ElectionCompute::Signed).unwrap();
    let mut bad = example_solution(&store, 20, 1);
    bad.score.min_backing += 1;
    assert_eq!(
        queue.accept(&store, 1, bad, ElectionCompute::Signed),
        Err(FeasibilityError::ScoreMismatch)
    );
    assert_eq!(queue.queued().unwrap().solution.score.min_backing, 40);
}

#[test]
fn round_trip_of_example() {
    let store = example_store();
    let a = example_assignments(60);
    let compact = encode(&a, &store).unwrap();
    assert_eq!(compact.voters.len(), 2);
    assert_eq!(compact.voters[0].voter, 0);
    assert_eq!(compact.voters[0].distribution, vec![(0, pct(60))]);
    assert_eq!(compact.voters[0].last_target, 1);
    assert!(compact.voters[1].distribution.is_empty());
    let back = decode(&compact, &store).unwrap();
    assert_eq!(back.len(), 2);
    for (x, y) in back.iter().zip(a.iter()) {
        assert_eq!(x.who, y.who);
        assert_eq!(x.distribution, y.distribution);
    }
}

#[test]
fn encode_errors() {
    let store = example_store();
    let unknown_voter = vec![Assignment { who: 9, distribution: vec![(T1, ACCURACY)] }];
    assert_eq!(encode(&unknown_voter, &store).unwrap_err(), CodecError::UnknownVoter);
    let unknown_target = vec![Assignment { who: V1, distribution: vec![(T1, 1), (77, ACCURACY - 1)] }];
    assert_eq!(encode(&unknown_target, &store).unwrap_err(), CodecError::UnknownTarget);
    let empty = vec![Assignment { who: V1, distribution: vec![] }];
    assert_eq!(encode(&empty, &store).unwrap_err(), CodecError::EmptyDistribution);
    let many = vec![Assignment { who: V1, distribution: vec![(T1, 1); 17] }];
    assert_eq!(encode(&many, &store).unwrap_err(), CodecError::TooManyEdges);
    let sixteen = vec![Assignment { who: V1, distribution: vec![(T1, 1); 16] }];
    assert!(encode(&sixteen, &store).is_ok());
}

#[test]
fn decode_errors() {
    let store = example_store();
    let cv = |voter: u32, distribution: Vec<(u32, u32)>, last_target: u32| CompactVoter {
        voter,
        distribution,
        last_target,
    };
    let c = CompactSolution { voters: vec![cv(2, vec![], 0)] };
    assert_eq!(decode(&c, &store).unwrap_err(), CodecError::IndexOutOfBounds);
    let c = CompactSolution { voters: vec![cv(0, vec![(3, 5)], 0)] };
    assert_eq!(decode(&c, &store).unwrap_err(), CodecError::IndexOutOfBounds);
    let c = CompactSolution { voters: vec![cv(0, vec![], 3)] };
    assert_eq!(decode(&c, &store).unwrap_err(), CodecError::IndexOutOfBounds);
    let c = CompactSolution { voters: vec![cv(0, vec![(0, 1); 16], 1)] };
    assert_eq!(decode(&c, &store).unwrap_err(), CodecError::TooManyEdges);
    let c = CompactSolution { voters: vec![cv(0, vec![(0, ACCURACY), (2, 1)], 1)] };
    assert_eq!(decode(&c, &store).unwrap_err(), CodecError::ShareOverflow);
    let c = CompactSolution { voters: vec![cv(0, vec![(0, ACCURACY)], 1)] };
    let a = decode(&c, &store).unwrap();
    assert_eq!(a[0].distribution, vec![(T1, ACCURACY), (T2, 0)]);
    assert_eq!(validate(&c, 2, 2), Ok(()));
    assert_eq!(validate(&c, 2, 1), Err(CodecError::IndexOutOfBounds));
}

#[test]
fn feasibility_errors() {
    let store = example_store();
    let raw = example_solution(&store, 60, 1);
    let empty = SnapshotStore::new();
    assert_eq!(check(&empty, 1, &raw, ElectionCompute::Signed), Err(FeasibilityError::SnapshotMissing));
    assert_eq!(check(&store, 2, &raw, ElectionCompute::Signed), Err(FeasibilityError::WrongRound));
    let mut stale = raw.clone();
    stale.compact.voters[0].last_target = 3;
    assert_eq!(
        check(&store, 1, &stale, ElectionCompute::Signed),
        Err(FeasibilityError::MalformedSolution(CodecError::IndexOutOfBounds))
    );
    let mut stale_voter = raw.clone();
    stale_voter.compact.voters[1].voter = 2;
    assert_eq!(
        check(&store, 1, &stale_voter, ElectionCompute::Signed),
        Err(FeasibilityError::MalformedSolution(CodecError::IndexOutOfBounds))
    );
    let mut three = raw.clone();
    three.compact.voters.push(three.compact.voters[1].clone());
    assert_eq!(check(&store, 1, &three, ElectionCompute::Signed), Err(FeasibilityError::TooManyVoters));
    let mut mismatch = raw.clone();
    mismatch.score.sum_squared -= 1;
    assert_eq!(check(&store, 1, &mismatch, ElectionCompute::Signed), Err(FeasibilityError::ScoreMismatch));
}

#[test]
fn wrong_winner_count_rejected() {
    let store = example_store();
    let one = vec![
        Assignment { who: V1, distribution: vec![(T1, ACCURACY)] },
        Assignment { who: V2, distribution: vec![(T1, ACCURACY)] },
    ];
    let compact = encode(&one, &store).unwrap();
    let raw = RawSolution { compact, score: score_of(150, 150, 22500), round: 1 };
    assert_eq!(check(&store, 1, &raw, ElectionCompute::Signed), Err(FeasibilityError::WrongWinnerCount));
    let three = vec![
        Assignment { who: V1, distribution: vec![(T1, pct(50)), (T3, pct(50))] },
        Assignment { who: V2, distribution: vec![(T2, ACCURACY)] },
    ];
    let compact = encode(&three, &store).unwrap();
    let raw = RawSolution { compact, score: score_of(50, 150, 7500), round: 1 };
    assert_eq!(check(&store, 1, &raw, ElectionCompute::Signed), Err(FeasibilityError::WrongWinnerCount));
}

#[test]
fn snapshot_create_and_lookups() {
    let mut store = SnapshotStore::new();
    assert_eq!(store.create(example_voters(), vec![T1], 2), Err(SnapshotError::DesiredTargetsTooHigh));
    let wide = vec![Voter { id: 5, stake: 1, targets: vec![T1; 17] }];
    assert_eq!(store.create(wide, vec![T1], 1), Err(SnapshotError::TooManyEdges));
    assert!(!store.has_snapshot());
    let voters = vec![
        Voter { id: 7, stake: 10, targets: vec![] },
        Voter { id: 8, stake: 20, targets: vec![] },
        Voter { id: 7, stake: 30, targets: vec![] },
    ];
    store.create(voters, vec![T2, T1, T2], 3).unwrap();
    assert_eq!(store.metadata(), Some(SnapshotMetadata { voter_count: 3, target_count: 3 }));
    assert_eq!(store.desired_targets(), Some(3));
    assert_eq!(store.voter_index(7), Some(2));
    assert_eq!(store.voter_index(8), Some(1));
    assert_eq!(store.voter_index(9), None);
    assert_eq!(store.stake_of(7), Some(30));
    assert_eq!(store.stake_of(9), None);
    assert_eq!(store.target_index(T2), Some(0));
    assert_eq!(store.target_index(T1), Some(1));
    assert_eq!(store.target_index(T3), None);
    assert_eq!(store.voter_at(1), Some(8));
    assert_eq!(store.voter_at(3), None);
    assert_eq!(store.target_at(2), Some(T2));
    assert_eq!(store.target_at(3), None);
    store.clear();
    assert!(store.snapshot().is_none());
    assert_eq!(store.voter_index(7), None);
    assert_eq!(store.metadata(), None);
}

fn drive(state: &mut ElectionState, now: u32, deadline: u32) -> Action {
    let action = state.next_action(now, deadline);
    match action {
        Action::OpenSigned => state.open_signed(now, example_voters(), vec![T1, T2, T3], 2).unwrap(),
        Action::OpenUnsigned => state.open_unsigned(now).unwrap(),
        Action::Finalize => {
            let _ = state.finalize();
        }
        Action::Nothing => {}
    }
    action
}

#[test]
fn phase_sequence_of_one_round() {
    let mut state = ElectionState::new(5, 3);
    for now in 0..12 {
        assert_eq!(drive(&mut state, now, 20), Action::Nothing);
        assert_eq!(state.phase(), Phase::Off);
    }
    for now in 12..17 {
        drive(&mut state, now, 20);
        assert_eq!(state.phase(), Phase::Signed(12));
    }
    for now in 17..20 {
        drive(&mut state, now, 20);
        assert_eq!(state.phase(), Phase::Unsigned(true, 17));
    }
    assert_eq!(state.round(), 1);
    assert_eq!(drive(&mut state, 20, 20), Action::Finalize);
    assert_eq!(state.phase(), Phase::Off);
    assert_eq!(state.round(), 2);
    assert!(state.store().snapshot().is_none());
}

#[test]
fn round_with_submissions() {
    let mut state = ElectionState::new(5, 3);
    let w = SolutionSize { voters: 2, targets: 3 };
    let early = example_solution(&example_store(), 60, 1);
    assert_eq!(
        state.submit(early.clone(), w, ElectionCompute::Signed),
        Err(ElectionError::Phase(PhaseError::PhaseClosed))
    );
    assert_eq!(state.finalize().unwrap_err(), ElectionError::Phase(PhaseError::WrongPhase));
    assert_eq!(state.open_unsigned(3).unwrap_err(), ElectionError::Phase(PhaseError::WrongPhase));
    drive(&mut state, 12, 20);
    assert_eq!(
        state.open_signed(12, example_voters(), vec![T1], 1).unwrap_err(),
        ElectionError::Phase(PhaseError::WrongPhase)
    );
    assert_eq!(
        state.submit(early.clone(), w, ElectionCompute::Unsigned),
        Err(ElectionError::Phase(PhaseError::WrongSource))
    );
    assert_eq!(
        state.submit(early.clone(), SolutionSize { voters: 1, targets: 3 }, ElectionCompute::Signed),
        Err(ElectionError::WitnessMismatch)
    );
    assert_eq!(
        state.submit(early.clone(), w, ElectionCompute::Signed),
        Ok(())
    );
    drive(&mut state, 17, 20);
    assert_eq!(
        state.submit(early.clone(), w, ElectionCompute::Signed),
        Err(ElectionError::Phase(PhaseError::WrongSource))
    );
    let mut wrong = example_solution(state.store(), 20, 1);
    wrong.round = 7;
    assert_eq!(
        state.submit(wrong, w, ElectionCompute::Unsigned),
        Err(ElectionError::Feasibility(FeasibilityError::WrongRound))
    );
    assert_eq!(state.submit(example_solution(state.store(), 20, 1), w, ElectionCompute::Unsigned), Ok(()));
    assert_eq!(state.queued().unwrap().compute, ElectionCompute::Unsigned);
    let done = state.finalize().unwrap();
    assert_eq!(done.round, 1);
    assert_eq!(done.winners, vec![T1, T2]);
    assert_eq!(done.compute, ElectionCompute::Unsigned);
    assert_eq!(state.round(), 2);
    assert!(state.queued().is_none());
}

#[test]
fn empty_round_and_data_source_errors() {
    let mut state = ElectionState::new(5, 3);
    assert_eq!(
        state.open_signed(12, vec![], vec![T1], 1).unwrap_err(),
        ElectionError::DataSource(DataSourceError::Empty)
    );
    assert_eq!(
        state.open_signed(12, example_voters(), vec![T1], 2).unwrap_err(),
        ElectionError::DataSource(DataSourceError::Rejected(SnapshotError::DesiredTargetsTooHigh))
    );
    assert_eq!(state.phase(), Phase::Off);
    state.open_signed(13, example_voters(), vec![T1, T2, T3], 2).unwrap();
    assert_eq!(state.finalize().unwrap_err(), ElectionError::EmptyRound);
    assert_eq!(state.round(), 2);
    assert_eq!(state.phase(), Phase::Off);
}

/// Builds a snapshot of `voters` voters and `targets` targets in which the
/// first `active` voters spread their stake evenly over `edges` of the first
/// `desired` targets, and a feasible solution for it.
fn solution_with_size(
    state: &mut ElectionState,
    size: SolutionSize,
    active: u32,
    desired: u32,
    edges: u32,
) -> RawSolution {
    let targets: Vec<u64> = (0..size.targets as u64).map(|t| 1000 + t).collect();
    let voters: Vec<Voter> = (0..size.voters)
        .map(|i| {
            let picks = (0..edges).map(|k| targets[((i + k) % desired) as usize]).collect();
            Voter { id: i as u64, stake: 100, targets: picks }
        })
        .collect();
    state.open_signed(1, voters.clone(), targets.clone(), desired).unwrap();
    let share = ACCURACY / edges;
    let assignments: Vec<Assignment> = voters[..active as usize]
        .iter()
        .map(|v| {
            let mut d: Vec<(u64, u32)> = v.targets.iter().map(|t| (*t, share)).collect();
            let rest = ACCURACY - share * (edges - 1);
            d.last_mut().unwrap().1 = rest;
            Assignment { who: v.id, distribution: d }
        })
        .collect();
    let compact = encode(&assignments, state.store()).unwrap();
    let mut backing = vec![0u128; size.targets as usize];
    for a in &assignments {
        for (t, s) in &a.distribution {
            backing[state.store().target_index(*t).unwrap() as usize] +=
                100u128 * *s as u128 / ACCURACY as u128;
        }
    }
    let winners: Vec<u32> = (0..desired).collect();
    let s = score(&winners, &backing);
    RawSolution { compact, score: s, round: state.round() }
}

#[test]
fn test_benchmarks() {
    // Nothing happens while off.
    let mut state = ElectionState::new(10, 5);
    assert_eq!(state.next_action(1, 100), Action::Nothing);
    assert_eq!(state.phase(), Phase::Off);

    // Opening the signed window creates the snapshot.
    let mut state = ElectionState::new(10, 5);
    assert!(!state.store().has_snapshot());
    state.open_signed(1, example_voters(), vec![T1, T2, T3], 2).unwrap();
    assert!(state.store().has_snapshot());
    assert_eq!(state.phase(), Phase::Signed(1));

    // Opening the unsigned window keeps the snapshot.
    state.open_unsigned(2).unwrap();
    assert!(state.store().has_snapshot());
    assert_eq!(state.phase(), Phase::Unsigned(true, 2));

    // A feasible solution of a given size passes the check and is queued.
    let size = SolutionSize { voters: 40, targets: 20 };
    let mut state = ElectionState::new(10, 5);
    let raw = solution_with_size(&mut state, size, 30, 8, 3);
    assert_eq!(raw.compact.voters.len(), 30);
    assert_eq!(elected(state.store(), &raw.compact).len(), 8);
    assert_eq!(
        check(state.store(), state.round(), &raw, ElectionCompute::Unsigned),
        Ok(raw.score)
    );
    state.open_unsigned(2).unwrap();
    assert!(state.queued().is_none());
    state.submit(raw, size, ElectionCompute::Unsigned).unwrap();
    assert!(state.queued().is_some());
}
