//! Staking ledger and epoch engine of a delegated proof-of-stake validator selection.
//!
//! Token holders lock funds behind candidates. At every epoch boundary the best staked
//! candidates become the active validator set, their stake composition is frozen in a
//! snapshot, and block authors and their delegators accrue rewards from that snapshot.
//!
//! The ledger never touches balances itself: every operation returns the holds, releases
//! and mints that the host has to carry out, and the events that it should publish.
pub mod config;
pub mod conservation;
pub mod delegators;
pub mod epoch_transition;
pub mod genesis;
pub mod laws;
pub mod listing;
pub mod models;
pub mod pallet;
pub mod preservation;
pub mod restore;
pub mod rewards;
pub mod selection;
pub mod staking;
pub mod state;
pub mod sums;
pub mod types;

pub use crate::config::Config;
pub use crate::epoch_transition::ReportNewValidatorSet;
pub use crate::genesis::GenesisConfig;
pub use crate::models::{Candidate, CandidateSet, Delegation, DispatchResultWithValue, Epoch};
pub use crate::pallet::Pallet;
pub use crate::types::{
    AccountId, Balance, BalanceCommand, BlockNumber, Error, Event, HoldReason, Receipt,
    TopCandidateVec,
};
