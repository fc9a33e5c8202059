//! A verified core for a multi-phase, stake-weighted committee election:
//! round snapshots, compact solution encoding, scoring, feasibility checks,
//! best-solution retention and the round's phase machine, together with the
//! command-line vocabulary of the state-replay tool that drives it offline.
pub mod cli;
pub mod codec;
pub mod feasibility;
pub mod parse;
pub mod phase;
pub mod queue;
pub mod score;
pub mod snapshot;
